//! Domain literals, optimization levels, data locations and byte helpers.

use cert_chain::cert::oid_user_id;
use cert_chain::domain::KeychainDomain;
use cert_chain::level::BytecodeOptimizationLevel;
use cert_chain::location::{DataLocation, LocationError};
use cert_chain::util::{bytes_equal, clone_bytes};

#[test]
fn scenario_e_domain_literals() {
    assert_eq!(KeychainDomain::try_from("system"), Ok(KeychainDomain::System));
    assert_eq!(KeychainDomain::try_from("user"), Ok(KeychainDomain::User));
    assert_eq!(KeychainDomain::try_from("common"), Ok(KeychainDomain::Common));
    assert_eq!(
        KeychainDomain::try_from("dynamic"),
        Ok(KeychainDomain::Dynamic)
    );
    let err = KeychainDomain::try_from("SYSTEM").unwrap_err();
    assert_eq!(
        err,
        "SYSTEM is not a valid keychain domain; use user, system, common, or dynamic"
    );
    let err = KeychainDomain::try_from("root").unwrap_err();
    assert_eq!(
        err,
        "root is not a valid keychain domain; use user, system, common, or dynamic"
    );
}

#[test]
fn optimization_levels_round_trip() {
    assert_eq!(
        BytecodeOptimizationLevel::try_from(0),
        Ok(BytecodeOptimizationLevel::Zero)
    );
    assert_eq!(
        BytecodeOptimizationLevel::try_from(1),
        Ok(BytecodeOptimizationLevel::One)
    );
    assert_eq!(
        BytecodeOptimizationLevel::try_from(2),
        Ok(BytecodeOptimizationLevel::Two)
    );
    assert_eq!(
        BytecodeOptimizationLevel::try_from(3),
        Err("unsupported bytecode optimization level")
    );
    assert_eq!(
        BytecodeOptimizationLevel::try_from(-1),
        Err("unsupported bytecode optimization level")
    );
    for level in [
        BytecodeOptimizationLevel::Zero,
        BytecodeOptimizationLevel::One,
        BytecodeOptimizationLevel::Two,
    ] {
        assert_eq!(
            BytecodeOptimizationLevel::try_from(level.to_i32()),
            Ok(level)
        );
    }
}

#[test]
fn memory_location_resolves_to_its_bytes() {
    let loc = DataLocation::Memory(vec![1, 2, 3]);
    assert_eq!(loc.resolve(), Ok(vec![1, 2, 3]));
    assert_eq!(
        loc.to_memory(),
        Ok(DataLocation::Memory(vec![1, 2, 3]))
    );
}

#[test]
fn path_location_is_reported_unresolved() {
    let loc = DataLocation::Path("/tmp/data.bin".to_string());
    assert_eq!(
        loc.resolve(),
        Err(LocationError::UnresolvedPath("/tmp/data.bin".to_string()))
    );
    assert_eq!(
        loc.to_memory(),
        Err(LocationError::UnresolvedPath("/tmp/data.bin".to_string()))
    );
}

#[test]
fn byte_helpers() {
    let a = vec![1u8, 2, 3];
    let b = clone_bytes(&a);
    assert_eq!(a, b);
    assert!(bytes_equal(&a, &b));
    assert!(!bytes_equal(&a, &vec![1u8, 2]));
    assert!(!bytes_equal(&a, &vec![1u8, 2, 4]));
    assert!(bytes_equal(&Vec::new(), &Vec::new()));
}

#[test]
fn user_id_oid_bytes() {
    // 0.9.2342.19200300.100.1.1, the LDAP userId attribute
    assert_eq!(
        oid_user_id(),
        vec![0x09, 0x92, 0x26, 0x89, 0x93, 0xf2, 0x2c, 0x64, 0x01, 0x01]
    );
}
