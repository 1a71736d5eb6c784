use fvm::releases::{
    deserialize_time, get_release_url, releases_in_channel, releases_matching, replace_archives,
    resolve_release_archives, serialize_time, Channel, Release, TargetOs,
};

fn release(version: &str, channel: Channel, archive: &str) -> Release {
    Release {
        hash: format!("hash-{}", version),
        channel,
        version: version.to_string(),
        release_date: deserialize_time("2021-04-02T18:21:00.000Z").ok().unwrap(),
        archive: archive.to_string(),
        sha256: format!("sha-{}", version),
    }
}

#[test]
fn channel_names() {
    assert_eq!(Channel::Stable.to_string(), "stable");
    assert_eq!(Channel::Beta.to_string(), "beta");
    assert_eq!(Channel::Dev.to_string(), "dev");
    assert_eq!(Channel::Beta.serialize(), "beta");
}

#[test]
fn channel_display_names() {
    assert_eq!(Channel::Stable.display(), "Stable");
    assert_eq!(Channel::Beta.display(), "Beta");
    assert_eq!(Channel::Dev.display(), "Dev");
}

#[test]
fn channel_deserialize() {
    assert_eq!(Channel::deserialize("stable"), Channel::Stable);
    assert_eq!(Channel::deserialize("beta"), Channel::Beta);
    assert_eq!(Channel::deserialize("dev"), Channel::Dev);
    assert_eq!(Channel::deserialize("master"), Channel::Dev);
    assert_eq!(Channel::deserialize("Stable"), Channel::Dev);
}

#[test]
fn channel_roundtrip() {
    for c in [Channel::Stable, Channel::Beta, Channel::Dev] {
        assert_eq!(Channel::deserialize(&c.serialize()), c);
    }
}

#[test]
fn release_display() {
    let r = release("2.0.4", Channel::Stable, "a");
    assert_eq!(r.display(), "2.0.4-stable");
}

#[test]
fn release_urls() {
    assert_eq!(
        get_release_url(TargetOs::Linux),
        "https://storage.googleapis.com/flutter_infra_release/releases/releases_linux.json"
    );
    assert_eq!(
        get_release_url(TargetOs::Windows),
        "https://storage.googleapis.com/flutter_infra_release/releases/releases_windows.json"
    );
    assert_eq!(
        get_release_url(TargetOs::Macos),
        "https://storage.googleapis.com/flutter_infra_release/releases/releases_macos.json"
    );
}

#[test]
fn release_date_parses_and_writes() {
    let d = deserialize_time("2021-03-04T12:00:00Z").ok().unwrap();
    assert_eq!(serialize_time(&d), "2021-03-04T12:00:00+00:00");
    let e = deserialize_time("1996-12-19T16:39:57-08:00").ok().unwrap();
    assert_eq!(serialize_time(&e), "1996-12-19T16:39:57-08:00");
}

#[test]
fn release_date_rejects_other_text() {
    assert!(deserialize_time("yesterday").is_err());
    assert!(deserialize_time("2021-03-04").is_err());
}

#[test]
fn channel_filter_gives_positions() {
    let rs = vec![
        release("1", Channel::Stable, "a"),
        release("2", Channel::Beta, "b"),
        release("3", Channel::Stable, "c"),
    ];
    assert_eq!(releases_in_channel(&rs, Channel::Stable), vec![0, 2]);
    assert_eq!(releases_in_channel(&rs, Channel::Beta), vec![1]);
    assert_eq!(releases_in_channel(&rs, Channel::Dev), Vec::<usize>::new());
}

#[test]
fn label_match_gives_positions() {
    let rs = vec![
        release("2.0.4", Channel::Stable, "a"),
        release("2.0.5", Channel::Beta, "b"),
        release("1.22.6", Channel::Stable, "c"),
    ];
    assert_eq!(releases_matching(&rs, "2.0"), vec![0, 1]);
    assert_eq!(releases_matching(&rs, "6-stable"), vec![2]);
    assert_eq!(releases_matching(&rs, ""), vec![0, 1, 2]);
    assert_eq!(releases_matching(&rs, "3.0"), Vec::<usize>::new());
}

#[test]
fn archives_become_full_addresses() {
    let rs = vec![
        release("2.0.4", Channel::Stable, "stable/linux/flutter_linux_2.0.4-stable.tar.xz"),
        release("2.2.0", Channel::Beta, "beta/linux/flutter_linux_2.2.0-beta.tar.xz"),
    ];
    let out = resolve_release_archives(
        "https://storage.googleapis.com/flutter_infra_release/releases",
        rs,
    )
    .unwrap();
    assert_eq!(out.len(), 2);
    assert_eq!(
        out[0].archive,
        "https://storage.googleapis.com/flutter_infra_release/releases/stable/linux/flutter_linux_2.0.4-stable.tar.xz"
    );
    assert_eq!(
        out[1].archive,
        "https://storage.googleapis.com/flutter_infra_release/releases/beta/linux/flutter_linux_2.2.0-beta.tar.xz"
    );
    assert_eq!(out[1].version, "2.2.0");
    assert_eq!(out[1].channel, Channel::Beta);
    assert_eq!(out[1].hash, "hash-2.2.0");
    assert_eq!(out[1].sha256, "sha-2.2.0");
}

#[test]
fn archives_with_base_that_is_no_url() {
    let rs = vec![release("2.0.4", Channel::Stable, "x.tar.xz")];
    assert!(resolve_release_archives("not a url", rs).is_none());
    assert!(resolve_release_archives("not a url", Vec::new()).is_none());
}

#[test]
fn archives_empty_list() {
    let out = resolve_release_archives("https://example.net/r", Vec::new()).unwrap();
    assert!(out.is_empty());
}

#[test]
fn archives_replaced_in_place() {
    let rs = vec![release("1", Channel::Stable, "a"), release("2", Channel::Dev, "b")];
    let out = replace_archives(rs, vec!["x".to_string(), "y".to_string()]);
    assert_eq!(out[0].archive, "x");
    assert_eq!(out[1].archive, "y");
    assert_eq!(out[0].version, "1");
    assert_eq!(out[1].channel, Channel::Dev);
    assert_eq!(out[1].hash, "hash-2");
}

#[test]
fn archives_absolute_paths_replace_the_root() {
    let rs = vec![release("1", Channel::Stable, "https://other.example/f.tar.xz"), release("2", Channel::Stable, "/top.tar.xz")];
    let out = resolve_release_archives("https://example.net/a/b", rs).unwrap();
    assert_eq!(out[0].archive, "https://other.example/f.tar.xz");
    assert_eq!(out[1].archive, "https://example.net/top.tar.xz");
}
