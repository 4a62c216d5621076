use npm_package_explorer::request::{PackageFileRequest, PackageFileRequestParsingError};

#[test]
fn test_regular_name() {
    let result = "react/0.1.0/README.md".parse::<PackageFileRequest>();

    assert_eq!(
        result.unwrap(),
        PackageFileRequest {
            name: "react".into(),
            version: "0.1.0".into(),
            path: "README.md".into()
        }
    );
}

#[test]
fn test_regular_name_long_path() {
    let result = "react/0.1.0/lib/components/Component.js".parse::<PackageFileRequest>();

    assert_eq!(
        result.unwrap(),
        PackageFileRequest {
            name: "react".into(),
            version: "0.1.0".into(),
            path: "lib/components/Component.js".into()
        }
    );
}

#[test]
fn test_regular_name_empty_path() {
    let result = "react/0.1.0/".parse::<PackageFileRequest>();

    assert_eq!(
        result.unwrap(),
        PackageFileRequest {
            name: "react".into(),
            version: "0.1.0".into(),
            path: "".into()
        }
    );
}

#[test]
fn test_regular_name_no_trailing_slash() {
    let result = "react/0.1.0".parse::<PackageFileRequest>();

    assert_eq!(
        result.unwrap(),
        PackageFileRequest {
            name: "react".into(),
            version: "0.1.0".into(),
            path: "".into()
        }
    );
}

#[test]
fn test_regular_name_invalid() {
    let result = "react".parse::<PackageFileRequest>();
    assert_eq!(result.is_err(), true);
}

#[test]
fn test_scoped_name_empty_path() {
    let result = "@d11t/ui/0.1.0/".parse::<PackageFileRequest>();
    assert_eq!(
        result.unwrap(),
        PackageFileRequest {
            name: "@d11t/ui".into(),
            version: "0.1.0".into(),
            path: "".into()
        }
    );
}

#[test]
fn test_missing_version() {
    let result = "react/".parse::<PackageFileRequest>();
    assert!(result.is_err());
}

#[test]
fn scoped_name_with_path() {
    let result = PackageFileRequest::parse("@scope/name/1.0.0/dist/a.js").unwrap();
    assert_eq!(result.name, "@scope/name");
    assert_eq!(result.version, "1.0.0");
    assert_eq!(result.path, "dist/a.js");
}

#[test]
fn scoped_name_trailing_slash_gives_empty_path() {
    let result = PackageFileRequest::parse("@scope/name/1.0.0/").unwrap();
    assert_eq!(
        result,
        PackageFileRequest {
            name: "@scope/name".into(),
            version: "1.0.0".into(),
            path: "".into()
        }
    );
}

#[test]
fn plain_name_alone_lacks_version() {
    assert_eq!(
        PackageFileRequest::parse("react"),
        Err(PackageFileRequestParsingError::MissingVersion("react".into()))
    );
}

#[test]
fn empty_version_is_missing() {
    assert_eq!(
        PackageFileRequest::parse("react/"),
        Err(PackageFileRequestParsingError::MissingVersion("react/".into()))
    );
    assert_eq!(
        PackageFileRequest::parse("react//x"),
        Err(PackageFileRequestParsingError::MissingVersion("react//x".into()))
    );
}

#[test]
fn scope_without_name_is_rejected() {
    assert_eq!(
        PackageFileRequest::parse("@scope"),
        Err(PackageFileRequestParsingError::InvalidScopedName("@scope".into()))
    );
}

#[test]
fn scoped_name_without_version_is_rejected() {
    assert_eq!(
        PackageFileRequest::parse("@scope/name"),
        Err(PackageFileRequestParsingError::MissingVersion("@scope/name".into()))
    );
}

#[test]
fn empty_name_is_rejected() {
    assert_eq!(
        PackageFileRequest::parse("/1.0.0/a"),
        Err(PackageFileRequestParsingError::InvalidNameFormat("/1.0.0/a".into()))
    );
    assert_eq!(
        PackageFileRequest::parse(""),
        Err(PackageFileRequestParsingError::InvalidNameFormat("".into()))
    );
}

#[test]
fn non_ascii_segments_are_kept() {
    let result = PackageFileRequest::parse("пакет/1.0.0/ü/ß.md").unwrap();
    assert_eq!(result.name, "пакет");
    assert_eq!(result.version, "1.0.0");
    assert_eq!(result.path, "ü/ß.md");
}
