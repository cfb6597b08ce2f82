use broker_protocol::api_keys::{ApiKey, NO_ERROR, UNSUPPORTED_VERSION};

#[test]
fn lookup_by_code() {
    assert_eq!(ApiKey::from_int(18), ApiKey::ApiVersions);
    assert_eq!(ApiKey::from_int(75), ApiKey::DescribeTopicPartitions);
    assert_eq!(ApiKey::from_int(999), ApiKey::Unsupported);
    assert_eq!(ApiKey::from_int(0), ApiKey::Unsupported);
    assert_eq!(ApiKey::from_int(-1), ApiKey::Unsupported);
}

#[test]
fn lookup_serves_exactly_two_codes() {
    for code in i16::MIN..=i16::MAX {
        let key = ApiKey::from_int(code);
        if code == 18 || code == 75 {
            assert_ne!(key, ApiKey::Unsupported);
            assert_eq!(key.to_int(), code);
        } else {
            assert_eq!(key, ApiKey::Unsupported);
        }
    }
}

#[test]
fn codes_of_keys() {
    assert_eq!(ApiKey::ApiVersions.to_int(), 18);
    assert_eq!(ApiKey::DescribeTopicPartitions.to_int(), 75);
    assert_eq!(ApiKey::Unsupported.to_int(), 0);
}

#[test]
fn version_ranges() {
    assert_eq!(ApiKey::ApiVersions.supported_versions(), Some((0, 4)));
    assert_eq!(ApiKey::DescribeTopicPartitions.supported_versions(), Some((0, 0)));
    assert_eq!(ApiKey::Unsupported.supported_versions(), None);
}

#[test]
fn registry_lists_the_served_keys_in_order() {
    let keys = ApiKey::all_supported();
    assert_eq!(keys, vec![ApiKey::ApiVersions, ApiKey::DescribeTopicPartitions]);
    for key in keys {
        let (min, max) = key.supported_versions().unwrap();
        assert!(min <= max);
        assert_eq!(ApiKey::from_int(key.to_int()), key);
    }
}

#[test]
fn version_check_is_zero_exactly_within_range() {
    for key in [ApiKey::ApiVersions, ApiKey::DescribeTopicPartitions] {
        let (_, max) = key.supported_versions().unwrap();
        for version in i16::MIN..=i16::MAX {
            let expected =
                if 0 <= version && version <= max { NO_ERROR } else { UNSUPPORTED_VERSION };
            assert_eq!(key.check_version(version), expected);
        }
    }
}

#[test]
fn version_check_exact_values() {
    assert_eq!(ApiKey::ApiVersions.check_version(0), 0);
    assert_eq!(ApiKey::ApiVersions.check_version(4), 0);
    assert_eq!(ApiKey::ApiVersions.check_version(5), 35);
    assert_eq!(ApiKey::ApiVersions.check_version(-1), 35);
    assert_eq!(ApiKey::DescribeTopicPartitions.check_version(0), 0);
    assert_eq!(ApiKey::DescribeTopicPartitions.check_version(1), 35);
    assert_eq!(ApiKey::Unsupported.check_version(0), 35);
}
