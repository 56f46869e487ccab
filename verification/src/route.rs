//! What the query server does with a request, decided from its method and
//! URL alone.

use crate::text::str_eq;
use vstd::prelude::*;

verus! {

/// The request methods that the server tells apart.
#[derive(Clone, Copy, Debug, PartialEq, Eq, Structural)]
pub enum Method {
    Get,
    Post,
    /// Any other method.
    Other,
}

/// The static pages of the user interface.
#[derive(Clone, Copy, Debug, PartialEq, Eq, Structural)]
pub enum Page {
    /// The search page.
    Home,
    /// The script of the search page.
    Script,
    /// The page for everything else.
    NotFound,
}

/// What a request asks for.
#[derive(Clone, Copy, Debug, PartialEq, Eq, Structural)]
pub enum Route {
    /// A search: the body of the request is the query.
    Search,
    /// One of the static pages.
    Static(Page),
}

/// The route of a request: every `POST` is a search; `GET` serves the
/// search page under `/` and `/index.html` and its script under
/// `/index.js`; everything else gets the not-found page.
pub open spec fn route_of(method: Method, url: Seq<char>) -> Route {
    match method {
        Method::Post => Route::Search,
        Method::Get => if url == "/"@ || url == "/index.html"@ {
            Route::Static(Page::Home)
        } else if url == "/index.js"@ {
            Route::Static(Page::Script)
        } else {
            Route::Static(Page::NotFound)
        },
        Method::Other => Route::Static(Page::NotFound),
    }
}

/// Decides what a request asks for.
pub fn route(method: Method, url: &str) -> (r: Route)
    ensures
        r == route_of(method, url@),
{
    match method {
        Method::Post => Route::Search,
        Method::Get => {
            if str_eq(url, "/") || str_eq(url, "/index.html") {
                Route::Static(Page::Home)
            } else if str_eq(url, "/index.js") {
                Route::Static(Page::Script)
            } else {
                Route::Static(Page::NotFound)
            }
        },
        Method::Other => Route::Static(Page::NotFound),
    }
}

impl Page {
    /// The file that holds the page, relative to the working directory.
    pub open spec fn spec_path(self) -> Seq<char> {
        match self {
            Page::Home => "static/index.html"@,
            Page::Script => "static/index.js"@,
            Page::NotFound => "static/404.html"@,
        }
    }

    /// The content type under which the page is served.
    pub open spec fn spec_content_type(self) -> Seq<char> {
        match self {
            Page::Script => "application/javascript"@,
            _ => "text/html"@,
        }
    }

    /// The file that holds the page, relative to the working directory.
    pub fn path(self) -> (p: &'static str)
        ensures
            p@ == self.spec_path(),
    {
        match self {
            Page::Home => "static/index.html",
            Page::Script => "static/index.js",
            Page::NotFound => "static/404.html",
        }
    }

    /// The content type under which the page is served.
    pub fn content_type(self) -> (t: &'static str)
        ensures
            t@ == self.spec_content_type(),
    {
        match self {
            Page::Script => "application/javascript",
            _ => "text/html",
        }
    }
}

} // verus!
