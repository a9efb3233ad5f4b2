use vordr::validation::{LinkStatus, ValidationError};
use vordr::volume::{
    create_volume, inspect_volume, parse_key_values, plan_create, register_volume,
    removal_decision, split_token, stored_pairs, tokens_to_json, RemovalProbe, VolumeError,
    VolumeRecord, VolumeStore,
};

fn strings(items: &[&str]) -> Vec<String> {
    items.iter().map(|s| s.to_string()).collect()
}

fn pair(k: &str, v: &str) -> (String, String) {
    (k.to_string(), v.to_string())
}

#[test]
fn tokens_split_at_first_equals() {
    assert_eq!(split_token("env=prod"), Some(pair("env", "prod")));
    assert_eq!(split_token("a=b=c"), Some(pair("a", "b=c")));
    assert_eq!(split_token("=x"), Some(pair("", "x")));
    assert_eq!(split_token("novalue"), None);
}

#[test]
fn malformed_tokens_are_dropped() {
    let parsed = parse_key_values(&strings(&["novalue", "env=prod", "other"]));
    assert_eq!(parsed, vec![pair("env", "prod")]);
    assert!(parse_key_values(&strings(&["novalue"])).is_empty());
}

#[test]
fn labels_serialize_to_json_objects() {
    assert_eq!(tokens_to_json(&vec![]), None);
    assert_eq!(
        tokens_to_json(&strings(&["env=prod"])),
        Some("{\"env\":\"prod\"}".to_string())
    );
    assert_eq!(tokens_to_json(&strings(&["k=1", "k=2"])), Some("{\"k\":\"2\"}".to_string()));
    assert_eq!(tokens_to_json(&strings(&["novalue"])), Some("{}".to_string()));
}

#[test]
fn stored_text_reads_back_leniently() {
    assert_eq!(
        stored_pairs(&Some("{\"b\":\"2\",\"a\":\"1\"}".to_string())),
        vec![pair("a", "1"), pair("b", "2")]
    );
    assert!(stored_pairs(&Some("not json".to_string())).is_empty());
    assert!(stored_pairs(&None).is_empty());
}

#[test]
fn plan_places_volume_under_root() {
    let plan = plan_create("/var/lib/vordr", "data").unwrap();
    assert_eq!(plan.volumes_dir, "/var/lib/vordr/volumes");
    assert_eq!(plan.mountpoint, "/var/lib/vordr/volumes/data");
    let plan = plan_create("/srv/", "x").unwrap();
    assert_eq!(plan.mountpoint, "/srv/volumes/x");
    assert!(matches!(plan_create("/r", "../etc"), Err(VolumeError::InvalidName(_))));
}

#[test]
fn create_then_inspect_reports_canonical_mountpoint() {
    let mut store = VolumeStore::new();
    let r = create_volume(
        &mut store,
        "foo",
        "local",
        &vec![],
        &vec![],
        b"/tmp/root/volumes",
        b"/tmp/root/volumes/foo",
        7,
    );
    assert_eq!(r, Ok("foo".to_string()));
    let d = inspect_volume(&store, "foo").unwrap();
    assert_eq!(d.mountpoint, "/tmp/root/volumes/foo");
    assert!(d.mountpoint.starts_with('/'));
    assert!(d.mountpoint.ends_with("/volumes/foo"));
    assert!(d.labels.is_empty());
    assert_eq!(d.created_at, 7);
}

#[test]
fn second_create_of_same_name_conflicts() {
    let mut store = VolumeStore::new();
    let vols: &[u8] = b"/r/volumes";
    let mount: &[u8] = b"/r/volumes/foo";
    assert!(create_volume(&mut store, "foo", "local", &vec![], &vec![], vols, mount, 1).is_ok());
    assert_eq!(
        create_volume(&mut store, "foo", "local", &vec![], &vec![], vols, mount, 2),
        Err(VolumeError::AlreadyExists)
    );
    assert_eq!(store.len(), 1);
}

#[test]
fn create_remove_inspect_scenario() {
    let mut store = VolumeStore::new();
    let r = create_volume(
        &mut store,
        "data",
        "local",
        &strings(&["env=prod"]),
        &vec![],
        b"/r/volumes",
        b"/r/volumes/data",
        3,
    );
    assert_eq!(r, Ok("data".to_string()));
    let d = inspect_volume(&store, "data").unwrap();
    assert_eq!(d.driver, "local");
    assert_eq!(d.labels, vec![pair("env", "prod")]);
    assert!(d.options.is_empty());

    let rec = store.get_volume("data").unwrap();
    let probe = RemovalProbe {
        mount_exists: true,
        link: LinkStatus::NotSymlink,
        volumes_exists: true,
        volumes_canonical: Some(b"/r/volumes".to_vec()),
        mount_canonical: Some(b"/r/volumes/data".to_vec()),
    };
    assert_eq!(removal_decision(&rec.mountpoint, &probe), Ok(true));
    assert_eq!(store.delete_volume(&rec.id), Ok(()));
    assert!(matches!(inspect_volume(&store, "data"), Err(VolumeError::NotFound)));
    assert_eq!(store.delete_volume(&rec.id), Err(VolumeError::NotFound));
}

#[test]
fn create_with_only_malformed_labels_stores_empty_object() {
    let mut store = VolumeStore::new();
    let r = create_volume(
        &mut store,
        "v1",
        "local",
        &strings(&["novalue"]),
        &vec![],
        b"/r/volumes",
        b"/r/volumes/v1",
        0,
    );
    assert!(r.is_ok());
    let rec = store.get_volume("v1").unwrap();
    assert_eq!(rec.labels, Some("{}".to_string()));
    assert_eq!(rec.options, None);
    assert!(inspect_volume(&store, "v1").unwrap().labels.is_empty());
}

#[test]
fn create_rejects_escaped_and_bad_names() {
    let mut store = VolumeStore::new();
    assert_eq!(
        create_volume(&mut store, "evil", "local", &vec![], &vec![], b"/r/volumes", b"/etc", 0),
        Err(VolumeError::MountpointEscaped)
    );
    assert_eq!(
        create_volume(&mut store, "x", "local", &vec![], &vec![], b"/r/volumes", b"/r/volumesx", 0),
        Err(VolumeError::MountpointEscaped)
    );
    assert!(matches!(
        create_volume(&mut store, "-x", "local", &vec![], &vec![], b"/r/volumes", b"/r/volumes/-x", 0),
        Err(VolumeError::InvalidName(_))
    ));
    assert!(matches!(
        create_volume(&mut store, "u", "local", &vec![], &vec![], b"/r/volumes", b"/r/volumes/\xff", 0),
        Err(VolumeError::InvalidMountpoint(_))
    ));
    assert_eq!(store.len(), 0);
}

#[test]
fn register_checks_name_and_id() {
    let mut store = VolumeStore::new();
    let ok = register_volume(
        &mut store,
        "id-1".to_string(),
        "a",
        "local",
        b"/r/volumes",
        b"/r/volumes/a",
        None,
        Some("{}".to_string()),
        5,
    );
    assert_eq!(ok, Ok("a".to_string()));
    let dup_id = register_volume(
        &mut store,
        "id-1".to_string(),
        "b",
        "local",
        b"/r/volumes",
        b"/r/volumes/b",
        None,
        None,
        5,
    );
    assert_eq!(dup_id, Err(VolumeError::DuplicateId));
    let listed: Vec<VolumeRecord> = store.list_volumes();
    assert_eq!(listed.len(), 1);
    assert_eq!(listed[0].id, "id-1");
    assert_eq!(listed[0].labels, Some("{}".to_string()));
}

#[test]
fn removal_decisions() {
    let base = RemovalProbe {
        mount_exists: true,
        link: LinkStatus::NotSymlink,
        volumes_exists: true,
        volumes_canonical: Some(b"/r/volumes".to_vec()),
        mount_canonical: Some(b"/r/volumes/a".to_vec()),
    };
    let mut gone = base.clone();
    gone.mount_exists = false;
    assert_eq!(removal_decision("/r/volumes/a", &gone), Ok(false));
    let mut link = base.clone();
    link.link = LinkStatus::Symlink;
    match removal_decision("/r/volumes/a", &link) {
        Err(VolumeError::Symlink(ValidationError::SymlinkNotAllowed(m))) => {
            assert_eq!(m, "Cannot operate on symlink: /r/volumes/a")
        }
        other => panic!("unexpected {:?}", other),
    }
    let mut escaped = base.clone();
    escaped.mount_canonical = Some(b"/etc/passwd".to_vec());
    assert_eq!(removal_decision("/r/volumes/a", &escaped), Err(VolumeError::MountpointEscaped));
    let mut unresolved = base.clone();
    unresolved.mount_canonical = None;
    assert_eq!(removal_decision("/r/volumes/a", &unresolved), Err(VolumeError::UnresolvablePath));
    let mut no_root = base.clone();
    no_root.volumes_exists = false;
    assert_eq!(removal_decision("/r/volumes/a", &no_root), Ok(true));
}
