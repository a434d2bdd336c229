use vtz::pm::create::{latest_tarball, CreateError};
use vtz::pm::registry::{advisory_http_error, metadata_reply, next_fetch_step, FetchStep, MetadataReply};
use vtz::pm::tarball::{has_parent_dir, strip_first_with, strip_package_with, ComponentKind};
use vtz::plugin::{module_id_with, url_with};
use vtz::smap::StrMap;

#[test]
fn fetch_steps_back_off_then_give_up() {
    assert_eq!(next_fetch_step(0), FetchStep::Attempt { delay_ms: 0 });
    assert_eq!(next_fetch_step(1), FetchStep::Attempt { delay_ms: 200 });
    assert_eq!(next_fetch_step(2), FetchStep::Attempt { delay_ms: 400 });
    assert_eq!(next_fetch_step(3), FetchStep::GiveUp);
    assert_eq!(next_fetch_step(9), FetchStep::GiveUp);
}

#[test]
fn metadata_replies_by_status() {
    assert!(matches!(metadata_reply(304, None, "https://r/zod", "304 Not Modified"), MetadataReply::UseCached));
    assert!(matches!(
        metadata_reply(200, Some("W/\"abc\""), "https://r/zod", "200 OK"),
        MetadataReply::Store { etag: Some(e) } if e == "W/\"abc\""
    ));
    assert!(matches!(metadata_reply(200, None, "https://r/zod", "200 OK"), MetadataReply::Store { etag: None }));
    assert!(matches!(
        metadata_reply(404, None, "https://registry.npmjs.org/@s%2fpkg", "404 Not Found"),
        MetadataReply::Fail(m) if m == "package '@s%2fpkg' not found on registry"
    ));
    assert!(matches!(
        metadata_reply(500, None, "https://r/zod", "500 Internal Server Error"),
        MetadataReply::Fail(m) if m == "registry returned HTTP 500 Internal Server Error"
    ));
    assert_eq!(advisory_http_error("503 Service Unavailable"), "advisory API returned HTTP 503 Service Unavailable");
}

fn tags(pairs: &[(&str, &str)]) -> StrMap<String> {
    let mut m = StrMap::new();
    for (k, v) in pairs {
        m.insert(k.to_string(), v.to_string());
    }
    m
}

#[test]
fn latest_tarball_follows_the_latest_tag() {
    let mut versions: StrMap<(String, String)> = StrMap::new();
    versions.insert("1.2.0".to_string(), ("https://r/t-1.2.0.tgz".to_string(), "sha512-x".to_string()));
    assert_eq!(
        latest_tarball("t", &tags(&[("latest", "1.2.0")]), &versions).unwrap(),
        ("1.2.0".to_string(), "https://r/t-1.2.0.tgz".to_string(), "sha512-x".to_string())
    );
    assert!(matches!(
        latest_tarball("t", &tags(&[("next", "1.2.0")]), &versions),
        Err(CreateError::PackageNotFound(n)) if n == "t"
    ));
    assert!(matches!(
        latest_tarball("t", &tags(&[("latest", "2.0.0")]), &versions),
        Err(CreateError::PackageNotFound(_))
    ));
}

#[test]
fn component_search_and_rejoin() {
    let ks = vec![
        ComponentKind::Normal("package".to_string()),
        ComponentKind::ParentDir,
        ComponentKind::Normal("x".to_string()),
    ];
    assert!(has_parent_dir(&ks));
    assert!(!has_parent_dir(&vec![ComponentKind::CurDir, ComponentKind::Normal("a".to_string())]));
    assert_eq!(strip_package_with("package/../x", &ks, false), "../x");
    assert_eq!(strip_first_with("package/../x", &ks, true), "..\\x");
    assert_eq!(strip_first_with("a", &vec![ComponentKind::Normal("a".to_string())], false), "a");
    let rooted = vec![ComponentKind::Prefix("C:".to_string()), ComponentKind::RootDir, ComponentKind::Normal("a".to_string())];
    assert_eq!(strip_first_with("C:\\a", &rooted, true), "\\a");
}

#[test]
fn urls_and_module_ids_from_the_stripped_rest() {
    assert_eq!(url_with("/p/src/a.ts", Some("src\\a.ts")), "/src/a.ts");
    assert_eq!(url_with("/elsewhere/a.ts", None), "/elsewhere/a.ts");
    assert_eq!(module_id_with("/p/src/a.ts", Some("src/a.ts")), "/src/a.ts");
    assert_eq!(module_id_with("/elsewhere/a.ts", None), "/elsewhere/a.ts");
}
