use cyberscope::web::{is_spa_route, requested_asset, static_route, StaticRoute};

fn asset(route: StaticRoute) -> (String, String, &'static str, bool) {
    match route {
        StaticRoute::Asset {
            path,
            content_type,
            cache_control,
            with_body,
        } => (path, content_type, cache_control, with_body),
        _ => panic!("an asset was expected"),
    }
}

#[test]
fn the_root_serves_the_page_shell_without_caching() {
    let (path, content_type, cache_control, with_body) = asset(static_route("GET", "/", false));
    assert_eq!(path, "index.html");
    assert_eq!(content_type, "text/html");
    assert_eq!(cache_control, "no-cache");
    assert!(with_body);
}

#[test]
fn an_embedded_asset_is_immutable_and_typed_by_its_extension() {
    let (path, content_type, cache_control, with_body) =
        asset(static_route("HEAD", "/assets/app.js", true));
    assert_eq!(path, "assets/app.js");
    assert_eq!(content_type, "text/javascript");
    assert_eq!(cache_control, "public, max-age=31536000, immutable");
    assert!(!with_body);
}

#[test]
fn client_routes_fall_back_to_the_shell_and_missing_files_do_not() {
    let (path, _, _, _) = asset(static_route("GET", "/searches/42", false));
    assert_eq!(path, "index.html");
    assert!(matches!(
        static_route("GET", "/assets/missing.css", false),
        StaticRoute::NotFound
    ));
    assert!(matches!(
        static_route("GET", "/favicon.ico", false),
        StaticRoute::NotFound
    ));
}

#[test]
fn other_methods_and_unknown_api_paths_are_refused() {
    assert!(matches!(
        static_route("POST", "/", true),
        StaticRoute::MethodNotAllowed
    ));
    assert!(matches!(
        static_route("GET", "/api/v2/unknown", false),
        StaticRoute::ApiNotFound
    ));
}

#[test]
fn requested_paths_lose_their_leading_slashes() {
    assert_eq!(requested_asset("/assets/app.js"), "assets/app.js");
    assert_eq!(requested_asset("/"), "");
    assert!(is_spa_route("searches/42"));
    assert!(!is_spa_route("assets/chunk"));
    assert!(!is_spa_route("robots.txt"));
}
