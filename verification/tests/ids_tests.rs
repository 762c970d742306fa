use openfusion_launcher::endpoint::version_filenames;
use openfusion_launcher::ids::NIL_UUID;
use openfusion_launcher::profiles::LaunchProfile;

#[test]
fn uuid_string_is_hyphenated_lower_case() {
    assert_eq!(
        version_filenames(0x67e55044_10b1_426f_9247_bb680e5fe0c8),
        vec!["67e55044-10b1-426f-9247-bb680e5fe0c8".to_string(), "67e55044-10b1-426f-9247-bb680e5fe0c8.json".to_string()]
    );
    assert_eq!(version_filenames(NIL_UUID)[0], "00000000-0000-0000-0000-000000000000");
}

#[test]
fn random_uuids_are_version_4() {
    let a = LaunchProfile::new("a", "{}", false).get_id();
    let b = LaunchProfile::new("b", "{}", false).get_id();
    assert_ne!(a, NIL_UUID);
    assert_eq!((a >> 76) & 0xf, 4);
    assert_eq!((a >> 62) & 0x3, 2);
    assert_ne!(a, b);
    assert_eq!(version_filenames(a)[0].chars().nth(14), Some('4'));
}
