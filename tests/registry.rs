use npm_package_explorer::config::PackageConfig;
use npm_package_explorer::npm_registry::{
    authorization, check_manifest_status, make_release, manifest_url, DownloadManager,
    ManifestRepository, ManifestStep, NpmPackageManifest, PackageManifest, TarballUrl, Version,
    VersionManifest,
};
use npm_package_explorer::request::PackageFileRequest;

fn package(name: &str) -> PackageConfig {
    PackageConfig {
        name: name.into(),
        alias: None,
        registry: "https://registry.npmjs.org/".into(),
        access_token: None,
        ssl_verify: true,
        index_file: "index.html".into(),
    }
}

fn raw(entries: &[(&str, Option<&str>)]) -> NpmPackageManifest {
    let mut m = NpmPackageManifest::new();
    for (version, time) in entries {
        m.add_version(
            version.to_string(),
            TarballUrl::new(format!("https://example.org/p-{}.tgz", version)),
        );
        if let Some(t) = time {
            m.add_time(version.to_string(), t.to_string());
        }
    }
    m
}

fn version_strings(m: &PackageManifest) -> Vec<String> {
    m.versions.iter().map(|v| v.version_str.clone()).collect()
}

#[test]
fn prereleases_are_left_out_and_newest_comes_first() {
    let source = raw(&[
        ("1.0.0", Some("2020-01-01T00:00:00.000Z")),
        ("2.0.0-beta", Some("2020-02-01T00:00:00.000Z")),
        ("2.0.0", Some("2020-03-01T00:00:00.000Z")),
    ]);
    let m = PackageManifest::new(&source, "https://registry.npmjs.org/".into());
    assert_eq!(version_strings(&m), vec!["2.0.0", "1.0.0"]);
    assert_eq!(m.registry_url, "https://registry.npmjs.org/");
    assert_eq!(m.versions[0].version.major, 2);
    assert_eq!(m.versions[0].published, 1583020800000);
    assert_eq!(m.versions[1].published, 1577836800000);
    assert_eq!(
        m.versions[1].tarball_url.to_string(),
        "https://example.org/p-1.0.0.tgz"
    );
}

#[test]
fn entries_without_usable_time_or_version_are_skipped() {
    let source = raw(&[
        ("1.0.0", None),
        ("1.1.0", Some("not a time")),
        ("banana", Some("2020-01-01T00:00:00Z")),
        ("1.2.0", Some("2020-01-01T00:00:00Z")),
    ]);
    let m = PackageManifest::new(&source, "r".into());
    assert_eq!(version_strings(&m), vec!["1.2.0"]);
}

#[test]
fn ordering_compares_numerically() {
    let t = Some("2021-05-05T10:00:00+02:00");
    let source = raw(&[("0.9.0", t), ("0.10.0", t), ("10.0.0", t), ("2.0.1", t), ("2.0.0", t)]);
    let m = PackageManifest::new(&source, "r".into());
    assert_eq!(
        version_strings(&m),
        vec!["10.0.0", "2.0.1", "2.0.0", "0.10.0", "0.9.0"]
    );
    assert_eq!(m.versions[0].published, 1620201600000);
}

#[test]
fn tarball_lookup_by_version() {
    let source = raw(&[
        ("1.0.0", Some("2020-01-01T00:00:00Z")),
        ("2.0.0-rc.1", Some("2020-01-01T00:00:00Z")),
    ]);
    let m = PackageManifest::new(&source, "r".into());
    assert_eq!(
        m.get_tarball_url("1.0.0").unwrap().to_string(),
        "https://example.org/p-1.0.0.tgz"
    );
    assert!(m.get_tarball_url("2.0.0-rc.1").is_none());
    assert!(m.get_tarball_url("3.0.0").is_none());
}

#[test]
fn later_records_replace_earlier_ones() {
    let mut source = NpmPackageManifest::new();
    source.add_version("1.0.0".into(), TarballUrl::new("old".into()));
    source.add_version("1.0.0".into(), TarballUrl::new("new".into()));
    source.add_time("1.0.0".into(), "2020-01-01T00:00:00Z".into());
    let m = PackageManifest::new(&source, "r".into());
    assert_eq!(m.versions.len(), 1);
    assert_eq!(m.versions[0].tarball_url.to_string(), "new");
}

#[test]
fn manifest_url_percent_encodes_name() {
    assert_eq!(
        manifest_url(&package("@scope/name")),
        "https://registry.npmjs.org/%40scope%2Fname"
    );
    assert_eq!(manifest_url(&package("react")), "https://registry.npmjs.org/react");
}

#[test]
fn bearer_header_only_with_token() {
    let mut p = package("react");
    assert_eq!(authorization(&p), None);
    p.access_token = Some("SECRET-REDACTED".into());
    assert_eq!(authorization(&p), Some("Bearer SECRET-REDACTED".to_string()));
}

#[test]
fn download_paths_follow_layout() {
    let p = package("react");
    let request = PackageFileRequest::parse("react/0.1.0/lib/a.js").unwrap();
    let paths = DownloadManager::<u32>::get_download_paths(&p, &request);
    let root = "./.tmp/explorer_https_00003a_00002f_00002fregistry_00002enpmjs_00002eorg_00002f_00007creact/0.1.0";
    assert_eq!(paths.root_directory, root);
    assert_eq!(paths.package_directory, format!("{}/package", root));
    assert_eq!(paths.requested_file_path, format!("{}/package/lib/a.js", root));
}

#[test]
fn empty_path_maps_to_index_file() {
    let p = package("react");
    let request = PackageFileRequest::parse("react/0.1.0/").unwrap();
    let paths = DownloadManager::<u32>::get_download_paths(&p, &request);
    assert!(paths.requested_file_path.ends_with("/0.1.0/package/index.html"));
}

#[test]
fn concurrent_downloads_of_one_tarball_run_once() {
    let mut manager: DownloadManager<u32> = DownloadManager::new();
    let url = TarballUrl::new("https://example.org/a.tgz".into());
    let other = TarballUrl::new("https://example.org/b.tgz".into());
    assert_eq!(manager.begin(&url, 1), None);
    assert_eq!(manager.begin(&url, 2), Some(1));
    assert_eq!(manager.begin(&other, 3), None);
    assert_eq!(manager.finish(&url), Some(1));
    assert_eq!(manager.begin(&url, 4), None);
}

#[test]
fn manifest_is_fetched_once_then_cached() {
    let p = package("react");
    let mut repo: ManifestRepository<u32> = ManifestRepository::new();
    assert!(matches!(repo.begin(&p, 1, 0), ManifestStep::Fetch));
    assert!(matches!(repo.begin(&p, 2, 10), ManifestStep::Wait(1)));
    let source = raw(&[("1.0.0", Some("2020-01-01T00:00:00Z"))]);
    let (manifest, group) = repo.complete(&p, &source, 20);
    assert_eq!(group, Some(1));
    assert_eq!(manifest.versions.len(), 1);
    match repo.begin(&p, 3, 20 + 15000) {
        ManifestStep::Cached(m) => assert_eq!(version_strings(&m), vec!["1.0.0"]),
        _ => panic!("expected a cached manifest"),
    }
    assert!(matches!(repo.begin(&p, 4, 20 + 15001), ManifestStep::Fetch));
}

#[test]
fn failed_fetch_is_not_cached() {
    let p = package("react");
    let mut repo: ManifestRepository<u32> = ManifestRepository::new();
    assert!(matches!(repo.begin(&p, 1, 0), ManifestStep::Fetch));
    assert_eq!(repo.abandon(&p), Some(1));
    assert!(matches!(repo.begin(&p, 2, 1), ManifestStep::Fetch));
}

#[test]
fn staging_sits_beside_root() {
    assert_eq!(
        npm_package_explorer::npm_registry::staging_directory("./.tmp/k/1.0.0"),
        "./.tmp/k/1.0.0.partial"
    );
}

#[test]
fn key_escapes_registry() {
    let mut p = package("react");
    assert_eq!(p.key(), "https://registry.npmjs.org/|react");
    p.registry = "a|b\\c".into();
    assert_eq!(p.key(), "a\\|b\\\\c|react");
}

#[test]
fn keys_differ_where_plain_concatenation_collides() {
    let mut a = package("bc");
    a.registry = "https://a/".into();
    let mut b = package("c");
    b.registry = "https://a/b".into();
    assert_ne!(a.key(), b.key());
    assert_ne!(a.identifier_safe_key(), b.identifier_safe_key());
}

#[test]
fn status_other_than_ok_means_no_such_package() {
    let p = package("react");
    assert!(check_manifest_status(&p, 200).is_ok());
    let missing = check_manifest_status(&p, 404).unwrap_err();
    assert_eq!(missing.registry, "https://registry.npmjs.org/");
    assert_eq!(missing.name, "react");
    assert!(check_manifest_status(&p, 500).is_err());
}

fn version(major: u64, pre: &str) -> Version {
    Version {
        major,
        minor: 0,
        patch: 0,
        pre: pre.into(),
        build: String::new(),
    }
}

#[test]
fn release_needs_time_and_stable_version() {
    let url = TarballUrl::new("u".into());
    let id = String::from("1.0.0");
    let release = make_release(&id, &url, Some(5), Some(version(1, ""))).unwrap();
    assert_eq!(release.version_str, "1.0.0");
    assert_eq!(release.published, 5);
    assert_eq!(release.version, version(1, ""));
    assert!(make_release(&id, &url, None, Some(version(1, ""))).is_none());
    assert!(make_release(&id, &url, Some(5), None).is_none());
    assert!(make_release(&id, &url, Some(5), Some(version(1, "beta"))).is_none());
}

#[test]
fn tarball_lookup_returns_first_match() {
    let release = |url: &str| VersionManifest {
        version_str: "1.0.0".into(),
        version: version(1, ""),
        published: 0,
        tarball_url: TarballUrl::new(url.into()),
    };
    let m = PackageManifest {
        versions: vec![release("first"), release("second")],
        registry_url: "r".into(),
    };
    assert_eq!(m.get_tarball_url("1.0.0").unwrap().to_string(), "first");
}
