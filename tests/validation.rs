use vordr::validation::{
    check_not_symlink, is_within, is_within_bytes, path_to_string, validate_image_reference,
    validate_path_safe, validate_resource_name, validate_sha256_digest, LinkStatus, PathProbe,
    ValidationError,
};

#[test]
fn test_valid_resource_names() {
    assert!(validate_resource_name("my-container").is_ok());
    assert!(validate_resource_name("my_volume").is_ok());
    assert!(validate_resource_name("container123").is_ok());
    assert!(validate_resource_name("a").is_ok());
}

#[test]
fn test_invalid_resource_names() {
    assert!(validate_resource_name("").is_err());
    assert!(validate_resource_name("../escape").is_err());
    assert!(validate_resource_name("/absolute").is_err());
    assert!(validate_resource_name("has space").is_err());
    assert!(validate_resource_name("-starts-dash").is_err());
    assert!(validate_resource_name("a".repeat(65).as_str()).is_err());
}

#[test]
fn test_sha256_validation() {
    let valid = "sha256:a3ed95caeb02ffe68cdd9fd84406680ae93d633cb16422d00e8a7c22955b46d4";
    assert!(validate_sha256_digest(valid).is_ok());

    assert!(validate_sha256_digest("sha256:abc").is_err());
    assert!(validate_sha256_digest("md5:abc").is_err());
    assert!(validate_sha256_digest("sha256:gggg").is_err());
}

fn invalid_name_message(r: Result<(), ValidationError>) -> String {
    match r {
        Err(ValidationError::InvalidName(m)) => m,
        other => panic!("expected InvalidName, got {:?}", other),
    }
}

#[test]
fn names_accepted_examples() {
    assert!(validate_resource_name("a").is_ok());
    assert!(validate_resource_name("container123").is_ok());
    assert!(validate_resource_name("my-volume_1.2").is_ok());
    assert!(validate_resource_name(&"z".repeat(64)).is_ok());
}

#[test]
fn name_rule_messages_in_order() {
    assert_eq!(invalid_name_message(validate_resource_name("")), "Name cannot be empty");
    assert_eq!(
        invalid_name_message(validate_resource_name(&"b".repeat(65))),
        "Name exceeds maximum length of 64 characters"
    );
    assert_eq!(
        invalid_name_message(validate_resource_name("-abc")),
        "Name must start with a letter or number"
    );
    assert_eq!(
        invalid_name_message(validate_resource_name("has space")),
        "Invalid character ' ' in name"
    );
    assert_eq!(
        invalid_name_message(validate_resource_name("a/b")),
        "Invalid character '/' in name"
    );
}

#[test]
fn double_dot_is_traversal() {
    match validate_resource_name("a..b") {
        Err(ValidationError::PathTraversal(m)) => {
            assert_eq!(m, "Name contains path traversal sequences")
        }
        other => panic!("unexpected {:?}", other),
    }
    assert!(validate_resource_name("a.b.c").is_ok());
}

#[test]
fn sha256_messages() {
    assert_eq!(
        invalid_name_message(validate_sha256_digest("md5:abc")),
        "Digest must start with 'sha256:'"
    );
    assert_eq!(
        invalid_name_message(validate_sha256_digest("sha256:abc")),
        "SHA256 digest must be exactly 64 hex characters"
    );
    let bad_hex = format!("sha256:{}", "g".repeat(64));
    assert_eq!(
        invalid_name_message(validate_sha256_digest(&bad_hex)),
        "SHA256 digest must contain only hex characters"
    );
    let upper = format!("sha256:{}", "AbCdEf0123456789".repeat(4));
    assert!(validate_sha256_digest(&upper).is_ok());
    let long = format!("sha256:{}", "a".repeat(65));
    assert!(validate_sha256_digest(&long).is_err());
}

#[test]
fn image_references() {
    assert!(validate_image_reference("docker.io/library/alpine:3.19").is_ok());
    assert_eq!(
        invalid_name_message(validate_image_reference("")),
        "Image reference cannot be empty"
    );
    for bad in ["a;b", "a|b", "a`b", "a$b"] {
        assert_eq!(
            invalid_name_message(validate_image_reference(bad)),
            "Image reference contains disallowed characters"
        );
    }
}

#[test]
fn symlink_check_by_link_status() {
    assert!(check_not_symlink("/nonexistent/path", LinkStatus::Missing).is_ok());
    assert!(check_not_symlink("/var/lib/vol", LinkStatus::NotSymlink).is_ok());
    match check_not_symlink("/tmp/link", LinkStatus::Symlink) {
        Err(ValidationError::SymlinkNotAllowed(m)) => {
            assert_eq!(m, "Cannot operate on symlink: /tmp/link")
        }
        other => panic!("unexpected {:?}", other),
    }
}

#[test]
fn containment_respects_directory_boundaries() {
    assert!(is_within("/a/vol/x", "/a/vol"));
    assert!(is_within("/a/vol", "/a/vol"));
    assert!(!is_within("/a/volx", "/a/vol"));
    assert!(!is_within("/a", "/a/vol"));
    assert!(is_within("/x/y", "/"));
    assert!(is_within_bytes(b"/r/volumes/foo", b"/r/volumes"));
    assert!(!is_within_bytes(b"/r/volumesfoo", b"/r/volumes"));
}

fn probe(exists: bool, link: LinkStatus, canonical: Option<&str>, root: Option<&str>) -> PathProbe {
    PathProbe {
        exists,
        link,
        canonical: canonical.map(|s| s.to_string()),
        root_canonical: root.map(|s| s.to_string()),
    }
}

#[test]
fn path_safety() {
    let missing = probe(false, LinkStatus::Missing, None, None);
    assert!(validate_path_safe("/r/volumes/a", &missing).is_ok());
    assert!(matches!(
        validate_path_safe("/r/../etc", &missing),
        Err(ValidationError::PathTraversal(_))
    ));
    let link = probe(true, LinkStatus::Symlink, Some("/etc"), Some("/r"));
    assert!(matches!(
        validate_path_safe("/r/volumes/a", &link),
        Err(ValidationError::SymlinkNotAllowed(_))
    ));
    let inside = probe(true, LinkStatus::NotSymlink, Some("/r/volumes/a"), Some("/r/volumes"));
    assert!(validate_path_safe("/r/volumes/a", &inside).is_ok());
    let outside = probe(true, LinkStatus::NotSymlink, Some("/r/volumesx"), Some("/r/volumes"));
    assert!(matches!(
        validate_path_safe("/r/volumesx", &outside),
        Err(ValidationError::PathTraversal(_))
    ));
    let unresolved = probe(true, LinkStatus::NotSymlink, None, Some("/r"));
    assert!(matches!(
        validate_path_safe("/r/volumes/a", &unresolved),
        Err(ValidationError::InvalidPath(_))
    ));
    let no_root = probe(true, LinkStatus::NotSymlink, Some("/anywhere"), None);
    assert!(matches!(
        validate_path_safe("/anywhere", &no_root),
        Err(ValidationError::InvalidPath(_))
    ));
}

#[test]
fn path_bytes_to_string() {
    assert_eq!(path_to_string("/r/volumes/é".as_bytes()).unwrap(), "/r/volumes/é");
    match path_to_string(&[0x2f, 0xff, 0xfe]) {
        Err(ValidationError::InvalidPath(m)) => assert_eq!(m, "Path contains invalid UTF-8"),
        other => panic!("unexpected {:?}", other),
    }
}
