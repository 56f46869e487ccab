use search_index::route::{route, Method, Page, Route};

#[test]
fn every_post_is_a_search() {
    assert_eq!(route(Method::Post, "/"), Route::Search);
    assert_eq!(route(Method::Post, "/api/search"), Route::Search);
    assert_eq!(route(Method::Post, ""), Route::Search);
}

#[test]
fn get_serves_the_static_pages() {
    assert_eq!(route(Method::Get, "/"), Route::Static(Page::Home));
    assert_eq!(route(Method::Get, "/index.html"), Route::Static(Page::Home));
    assert_eq!(route(Method::Get, "/index.js"), Route::Static(Page::Script));
    assert_eq!(route(Method::Get, "/other"), Route::Static(Page::NotFound));
    assert_eq!(route(Method::Get, ""), Route::Static(Page::NotFound));
}

#[test]
fn other_methods_get_the_not_found_page() {
    assert_eq!(route(Method::Other, "/"), Route::Static(Page::NotFound));
    assert_eq!(route(Method::Other, "/index.js"), Route::Static(Page::NotFound));
}

#[test]
fn pages_have_a_file_and_a_content_type() {
    assert_eq!(Page::Home.path(), "static/index.html");
    assert_eq!(Page::Home.content_type(), "text/html");
    assert_eq!(Page::Script.path(), "static/index.js");
    assert_eq!(Page::Script.content_type(), "application/javascript");
    assert_eq!(Page::NotFound.path(), "static/404.html");
    assert_eq!(Page::NotFound.content_type(), "text/html");
}
