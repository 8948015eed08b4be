use utilify::generated::{check_new_playlist, generated_name};

#[test]
fn naming() {
    assert_eq!(generated_name("Road trip"), "Utilify: Road trip");
    assert_eq!(generated_name("  Utilify: Already  "), "Utilify: Already");
}

#[test]
fn a_new_playlist_needs_tracks_and_a_name() {
    assert_eq!(check_new_playlist("Mix", 0).unwrap_err().kind(), "empty_playlist");
    assert_eq!(check_new_playlist("  ", 3).unwrap_err().message(), "Give the new playlist a name.");
    assert!(check_new_playlist("Mix", 3).is_ok());
}

#[test]
fn naming_a_generated_name_again_changes_nothing() {
    let once = generated_name("  Road trip ");
    assert_eq!(once, "Utilify: Road trip");
    assert_eq!(generated_name(&once), once);
    assert_eq!(generated_name("Utilify:Mix"), "Utilify:Mix");
}
