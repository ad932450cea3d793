use uncontainerizable::app::{App, ContainOptions};
use uncontainerizable::error::Error;
use uncontainerizable::node::NodeApp;
use uncontainerizable::platforms::spawn_unsupported;

#[test]
fn new_accepts_valid_prefix() {
    let app = App::new("com.example.my-supervisor").unwrap();
    assert_eq!(app.prefix(), "com.example.my-supervisor");
}

#[test]
fn new_rejects_empty_prefix() {
    let err = App::new("").unwrap_err();
    assert!(matches!(err, Error::InvalidIdentity(_)));
}

#[test]
fn new_rejects_whitespace_prefix() {
    let err = App::new("bad prefix").unwrap_err();
    assert!(matches!(err, Error::InvalidIdentity(_)));
}

#[test]
fn new_rejects_slash_prefix() {
    let err = App::new("com/example").unwrap_err();
    assert!(matches!(err, Error::InvalidIdentity(_)));
}

#[test]
fn contain_options_default_has_no_identity() {
    let opts = ContainOptions::default();
    assert!(opts.identity.is_none());
    assert!(opts.args.is_empty());
    assert!(opts.env.is_empty());
    assert!(opts.cwd.is_none());
    assert!(!opts.darwin_tag_argv0);
}

#[test]
fn invalid_prefix_rejected_at_app_construction() {
    assert!(matches!(App::new("has space"), Err(Error::InvalidIdentity(_))));
    assert!(matches!(App::new("has/slash"), Err(Error::InvalidIdentity(_))));
    assert!(matches!(App::new(""), Err(Error::InvalidIdentity(_))));
}

#[test]
fn scoped_identity_combines_with_prefix() {
    let app = App::new("com.example").unwrap();
    assert_eq!(app.scoped_identity(None).unwrap(), None);
    assert_eq!(
        app.scoped_identity(Some("browser-main")).unwrap().as_deref(),
        Some("com.example:browser-main")
    );
    assert!(matches!(
        app.scoped_identity(Some("bad id")),
        Err(Error::InvalidIdentity(_))
    ));
}

#[test]
fn node_app_validates_prefix() {
    let app = NodeApp::new("com.example.node".to_string()).unwrap();
    assert_eq!(app.prefix(), "com.example.node");
    assert!(matches!(
        NodeApp::new("has space".to_string()),
        Err(Error::InvalidIdentity(_))
    ));
}

#[test]
fn spawn_on_unsupported_target_names_the_os() {
    let e = spawn_unsupported("amiga");
    assert_eq!(e.message(), "platform amiga (spawning not yet implemented) is not supported");
    assert_eq!(e.code(), "UNSUPPORTED_PLATFORM");
}

#[test]
fn darwin_invalid_prefix_rejected_at_app_construction() {
    assert!(App::new("").is_err());
    assert!(App::new("has space").is_err());
    assert!(App::new("has/slash").is_err());
}

#[test]
fn linux_invalid_prefix_rejected_at_app_construction() {
    assert!(App::new("").is_err());
    assert!(App::new("has space").is_err());
    assert!(App::new("has/slash").is_err());
}

#[test]
fn win32_invalid_prefix_rejected_at_app_construction() {
    assert!(App::new("").is_err());
    assert!(App::new("has space").is_err());
    assert!(App::new("has/slash").is_err());
}
