use vista_sdk::context::TraversalContext;
use vista_sdk::error::{LoadResourceError, VisError};
use vista_sdk::vec_set::VecSet;
use vista_sdk::version::{VisVersion, VisVersionExtensions, VisVersions};

#[test]
fn vec_set_holds_each_value_once() {
    let mut set = VecSet::new(4);
    assert!(!set.contains(3));
    set.insert(3);
    set.insert(5);
    set.insert(3);
    assert!(set.contains(3));
    assert!(set.contains(5));
    assert!(!set.contains(4));
    set.remove(3);
    assert!(!set.contains(3));
    assert!(set.contains(5));
    set.remove(3);
    set.remove(7);
    assert!(set.contains(5));
    set.remove(5);
    assert!(!set.contains(5));
}

#[test]
fn vec_set_grows_past_its_first_room() {
    let mut set = VecSet::new(0);
    for value in 0..100 {
        set.insert(value * 3);
    }
    for value in 0..300 {
        assert_eq!(set.contains(value), value % 3 == 0);
    }
    set.insert(u32::MAX);
    assert!(set.contains(u32::MAX));
}

#[test]
fn context_is_a_stack_of_positions() {
    let mut context = TraversalContext::new();
    assert!(!context.has(0));
    assert!(context.parents().is_empty());
    context.push(4);
    context.push(0);
    context.push(9);
    assert!(context.has(4) && context.has(0) && context.has(9));
    assert!(!context.has(1));
    assert_eq!(context.parents(), &vec![4, 0, 9]);
    context.pop();
    assert!(!context.has(9));
    assert_eq!(context.parents(), &vec![4, 0]);
    context.push(9);
    context.pop();
    context.pop();
    context.pop();
    assert!(context.parents().is_empty());
    assert!(!context.has(4));
}

#[test]
fn versions_are_read_from_their_tags() {
    assert_eq!(VisVersion::parse("3-4a").unwrap(), VisVersion::v3_4a);
    assert_eq!(VisVersion::parse("3-5a").unwrap(), VisVersion::v3_5a);
    assert_eq!(VisVersion::parse("3-6a").unwrap(), VisVersion::v3_6a);
    assert_eq!(VisVersion::parse("3-7a").unwrap(), VisVersion::v3_7a);
    for text in ["", "3-4", "3-4a ", "v3_4a", "3_4a", "3-4A", "3-8a"] {
        match VisVersion::parse(text) {
            Err(VisError::VersionNotRecognized(held)) => assert_eq!(held, text),
            _ => panic!("{} names no version", text),
        }
        assert!(text.parse::<VisVersion>().is_err());
    }
}

#[test]
fn versions_round_trip_through_their_tags() {
    let all = VisVersion::all();
    assert_eq!(
        all,
        vec![VisVersion::v3_4a, VisVersion::v3_5a, VisVersion::v3_6a, VisVersion::v3_7a]
    );
    for version in all {
        assert_eq!(VisVersion::parse(&version.to_string()).unwrap(), version);
    }
    assert_eq!(VisVersion::v3_7a.to_string(), "3-7a");
    assert!(VisVersion::v3_4a < VisVersion::v3_5a);
    assert!(VisVersion::v3_6a < VisVersion::v3_7a);
}

#[test]
fn version_helpers_agree_with_the_versions() {
    let extensions = VisVersionExtensions::new();
    assert_eq!(extensions.to_version_string(VisVersion::v3_5a), "3-5a");
    let versions = VisVersions::new();
    assert_eq!(versions.parse("3-6a"), VisVersion::v3_6a);
    assert_eq!(versions.all(), VisVersion::all());
}

#[test]
fn errors_render_their_cause() {
    assert_eq!(LoadResourceError::ResourceNotFound.to_string(), "resource not found");
    assert_eq!(LoadResourceError::ReadError("bad header".to_string()).to_string(), "bad header");
    assert_eq!(
        LoadResourceError::DeserializationError("no comma".to_string()).to_string(),
        "no comma"
    );
    assert_eq!(VisError::FailedToLoad("gone".to_string()).to_string(), "gone");
    assert_eq!(VisError::VersionNotRecognized("9".to_string()).to_string(), "9");
    let copy = VisError::FailedToLoad("gone".to_string()).clone();
    assert!(matches!(copy, VisError::FailedToLoad(cause) if cause == "gone"));
    let copy = LoadResourceError::ReadError("bad".to_string()).clone();
    assert!(matches!(copy, LoadResourceError::ReadError(cause) if cause == "bad"));
}
