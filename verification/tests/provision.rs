use maths_api::provision::{
    build_return_executable, clone_destination, interp_mode_arg, source_url, work_dir,
};

#[test]
fn canonical_source_lands_in_named_checkout() {
    assert_eq!(clone_destination(source_url()), "./ml-api/Maths-Lang");
}

#[test]
fn executable_sits_inside_the_checkout() {
    assert_eq!(
        build_return_executable(),
        "./ml-api/Maths-Lang/target/debug/Maths"
    );
    assert!(build_return_executable().starts_with(&format!("{}/", work_dir())));
}

#[test]
fn interp_mode_is_the_fixed_first_argument() {
    assert_eq!(interp_mode_arg(), "interp");
}

#[test]
fn git_suffix_is_dropped_from_the_name() {
    assert_eq!(
        clone_destination("https://example.com/group/thing.git"),
        "./ml-api/thing"
    );
    assert_eq!(
        clone_destination("https://example.com/group/thing"),
        "./ml-api/thing"
    );
}

#[test]
fn every_git_occurrence_leaves_the_name() {
    assert_eq!(clone_destination("host/a.git.git"), "./ml-api/a");
    assert_eq!(clone_destination("host/a.gitb.git"), "./ml-api/ab");
}

#[test]
fn segmentless_and_trailing_slash_locations() {
    assert_eq!(clone_destination("plain-name"), "./ml-api/plain-name");
    assert_eq!(clone_destination("host/group/"), "./ml-api/");
}
