//! The API registry: which request kinds the endpoint serves, and in which
//! versions.

use vstd::prelude::*;

verus! {

/// Wire code of the `ApiVersions` request.
pub const API_VERSIONS_CODE: i16 = 18;

/// Wire code of the `DescribeTopicPartitions` request.
pub const DESCRIBE_TOPIC_PARTITIONS_CODE: i16 = 75;

/// Error code of a request served without a version error.
pub const NO_ERROR: i16 = 0;

/// Error code for a request version outside the supported range.
pub const UNSUPPORTED_VERSION: i16 = 35;

/// A request kind known to the registry, or the sentinel for every other code.
#[derive(Debug, Clone, Copy, PartialEq, Eq, Structural)]
pub enum ApiKey {
    ApiVersions,
    DescribeTopicPartitions,
    Unsupported,
}

impl ApiKey {
    /// The registry entry for `code`.
    pub open spec fn lookup(code: i16) -> ApiKey {
        if code == API_VERSIONS_CODE {
            ApiKey::ApiVersions
        } else if code == DESCRIBE_TOPIC_PARTITIONS_CODE {
            ApiKey::DescribeTopicPartitions
        } else {
            ApiKey::Unsupported
        }
    }

    /// The wire code of a key; the sentinel has code 0.
    pub open spec fn code(self) -> i16 {
        match self {
            ApiKey::ApiVersions => API_VERSIONS_CODE,
            ApiKey::DescribeTopicPartitions => DESCRIBE_TOPIC_PARTITIONS_CODE,
            ApiKey::Unsupported => 0,
        }
    }

    /// Whether the registry serves this key.
    pub open spec fn supported(self) -> bool {
        self != ApiKey::Unsupported
    }

    /// The versions served, lowest and highest; the sentinel has none.
    pub open spec fn version_range(self) -> Option<(i16, i16)> {
        match self {
            ApiKey::ApiVersions => Some((0i16, 4i16)),
            ApiKey::DescribeTopicPartitions => Some((0i16, 0i16)),
            ApiKey::Unsupported => None,
        }
    }

    /// The error code owed to a request of this kind in `version`: none
    /// from version 0 up to the highest version served.
    pub open spec fn version_error(self, version: i16) -> i16 {
        match self.version_range() {
            Some((_, max)) => if 0 <= version <= max {
                NO_ERROR
            } else {
                UNSUPPORTED_VERSION
            },
            None => UNSUPPORTED_VERSION,
        }
    }

    /// Looks `code` up in the registry.
    pub fn from_int(code: i16) -> (key: ApiKey)
        ensures
            key == ApiKey::lookup(code),
    {
        match code {
            18 => ApiKey::ApiVersions,
            75 => ApiKey::DescribeTopicPartitions,
            _ => ApiKey::Unsupported,
        }
    }

    /// The wire code of this key.
    pub fn to_int(&self) -> (code: i16)
        ensures
            code == self.code(),
    {
        match self {
            ApiKey::ApiVersions => 18,
            ApiKey::DescribeTopicPartitions => 75,
            ApiKey::Unsupported => 0,
        }
    }

    /// The lowest and highest version served, if the key is served at all.
    pub fn supported_versions(&self) -> (range: Option<(i16, i16)>)
        ensures
            range == self.version_range(),
    {
        match self {
            ApiKey::ApiVersions => Some((0, 4)),
            ApiKey::DescribeTopicPartitions => Some((0, 0)),
            ApiKey::Unsupported => None,
        }
    }

    /// Checks a requested version against the registry.
    pub fn check_version(&self, version: i16) -> (error_code: i16)
        ensures
            error_code == self.version_error(version),
    {
        match self.supported_versions() {
            Some((_, max)) => if version >= 0 && version <= max {
                NO_ERROR
            } else {
                UNSUPPORTED_VERSION
            },
            None => UNSUPPORTED_VERSION,
        }
    }

    /// Every key the registry serves, in the order it is advertised.
    pub fn all_supported() -> (keys: Vec<ApiKey>)
        ensures
            keys@ == ApiKey::registry(),
    {
        let mut keys: Vec<ApiKey> = Vec::with_capacity(2);
        keys.push(ApiKey::ApiVersions);
        keys.push(ApiKey::DescribeTopicPartitions);
        keys
    }

    /// The registry's table: the served keys in advertised order.
    pub open spec fn registry() -> Seq<ApiKey> {
        seq![ApiKey::ApiVersions, ApiKey::DescribeTopicPartitions]
    }

    /// A served key is found again under its own wire code.
    pub proof fn lemma_lookup_of_code(key: ApiKey)
        requires
            key.supported(),
        ensures
            ApiKey::lookup(key.code()) == key,
    {
    }

    /// The registry lists exactly the codes that `lookup` serves, each once.
    pub proof fn lemma_registry_complete(code: i16)
        ensures
            ApiKey::lookup(code).supported() <==> ApiKey::registry().contains(ApiKey::lookup(code)),
            ApiKey::lookup(code).supported() ==> ApiKey::lookup(code).code() == code,
            ApiKey::registry().no_duplicates(),
            !ApiKey::registry().contains(ApiKey::Unsupported),
    {
        let table = ApiKey::registry();
        assert(table[0] == ApiKey::ApiVersions);
        assert(table[1] == ApiKey::DescribeTopicPartitions);
    }

    /// Every served key has a version range that starts at or below its end.
    pub proof fn lemma_range_ordered(key: ApiKey)
        ensures
            key.supported() <==> key.version_range() is Some,
            key.version_range() matches Some((min, max)) ==> min <= max,
    {
    }

    /// A version is free of error exactly when it lies between 0 and the
    /// highest version served; every other version is answered with the
    /// unsupported-version code.
    pub proof fn lemma_version_check(key: ApiKey, version: i16)
        requires
            key.supported(),
        ensures
            key.version_range() is Some,
            key.version_error(version) == NO_ERROR <==> 0 <= version <= key.version_range()->Some_0.1,
            key.version_error(version) != NO_ERROR ==> key.version_error(version)
                == UNSUPPORTED_VERSION,
    {
    }
}

} // verus!
