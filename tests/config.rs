use npm_package_explorer::config::{
    default_index_file, default_registry, default_ssl_verify, Config, Labels, PackageConfig,
};

fn package(name: &str, alias: Option<&str>) -> PackageConfig {
    PackageConfig {
        name: name.into(),
        alias: alias.map(|a| a.to_string()),
        registry: default_registry(),
        access_token: None,
        ssl_verify: default_ssl_verify(),
        index_file: default_index_file(),
    }
}

fn config(packages: Vec<PackageConfig>) -> Config {
    Config {
        listen_address: "127.0.0.1:8080".into(),
        timeago_language: None,
        banner_gradient_left_color: "#000".into(),
        banner_gradient_right_color: "#fff".into(),
        banner_color: "#888".into(),
        labels: Labels {
            title: "t".into(),
            banner: "b".into(),
            version: "v".into(),
            published: "p".into(),
        },
        packages,
    }
}

#[test]
fn defaults() {
    assert_eq!(default_registry(), "https://registry.npmjs.org/");
    assert!(default_ssl_verify());
    assert_eq!(default_index_file(), "index.html");
}

#[test]
fn public_name_prefers_alias() {
    assert_eq!(package("react", None).get_public_name(), "react");
    assert_eq!(package("@d11t/ui", Some("ui")).get_public_name(), "ui");
}

#[test]
fn key_joins_registry_and_name() {
    assert_eq!(
        package("@scope/name", None).key(),
        "https://registry.npmjs.org/|@scope/name"
    );
}

#[test]
fn identifier_safe_key_escapes_all_but_lowercase_and_digits() {
    assert_eq!(
        package("@Scope/Name", None).identifier_safe_key(),
        "explorer_https_00003a_00002f_00002fregistry_00002enpmjs_00002eorg_00002f_00007c_000040_000053cope_00002f_00004eame"
    );
}

#[test]
fn get_package_matches_public_name_first_wins() {
    let c = config(vec![
        package("a", None),
        package("b", Some("shown")),
        package("shown", None),
    ]);
    assert_eq!(c.get_package("a").unwrap().name, "a");
    assert_eq!(c.get_package("shown").unwrap().name, "b");
    assert!(c.get_package("b").is_none());
    assert!(c.get_package("zzz").is_none());
}

#[test]
fn first_package() {
    assert!(config(vec![]).get_first_package().is_none());
    let c = config(vec![package("x", None), package("y", None)]);
    assert_eq!(c.get_first_package().unwrap().name, "x");
}

#[test]
fn identifier_safe_keys_differ_for_similar_names() {
    let a = package("lodash.merge", None);
    let b = package("lodash_merge", None);
    let c = package("Lodash.merge", None);
    assert_ne!(a.identifier_safe_key(), b.identifier_safe_key());
    assert_ne!(a.identifier_safe_key(), c.identifier_safe_key());
}
