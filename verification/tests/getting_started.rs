use thock::getting_started::{
    activate, dismiss, fingerprint, mark_customize_read, mark_introduction_read, state, Marker,
    Markers, Steps,
};

fn no_markers() -> Markers {
    Markers { active: false, introduction: false, customize: false, tour: false }
}

#[test]
fn inactive_until_activated_then_steps_track_evidence() {
    let markers = no_markers();
    assert_eq!(state(markers, true), None);

    let markers = activate(markers);
    assert_eq!(
        state(markers, false),
        Some(Steps { introduction: false, customize: false, agent: false, tour: false })
    );

    let markers = mark_introduction_read(markers);
    let markers = mark_customize_read(markers);
    let markers = Markers { tour: true, ..markers };
    let steps = state(markers, true).unwrap();
    assert!(steps.all_done());

    let markers = dismiss(markers);
    assert_eq!(state(markers, true), None);
    // Dismissing twice is fine.
    assert_eq!(dismiss(markers), markers);
}

#[test]
fn fingerprint_changes_with_each_marker() {
    let markers = no_markers();
    let empty = fingerprint(markers);
    let markers = activate(markers);
    let active = fingerprint(markers);
    assert_ne!(empty, active);
    let markers = mark_introduction_read(markers);
    assert_ne!(active, fingerprint(markers));
}

#[test]
fn markers_have_paths_of_their_own() {
    let paths = [
        Marker::Active.path(),
        Marker::Introduction.path(),
        Marker::Customize.path(),
        Marker::Tour.path(),
    ];
    for (i, path) in paths.iter().enumerate() {
        assert!(!paths[..i].contains(path), "{path}");
    }
}
