//! All routes the application serves, with their parameters, as one enum:
//! a single source of truth for route paths.
//!
//! Parametrized routes carry their parameter in an `Option`: with a value
//! the concrete path is produced, without one the `:param` template form
//! that the router is configured with.

use vstd::prelude::*;

use crate::text::{i32_to_string, spec_decimal};

verus! {

/// Every route in the application.
#[derive(Debug)]
pub enum Route {
    AdminHome,
    AdminImportBook,
    AdminChangeRevision,
    AdminToken,
    AdminRevokeToken { token_id: Option<i32> },
    Auth,
    About,
    Book,
    BookComment { block_id: Option<i32> },
    BookNextPage,
    BookPrevPage,
    Favicon,
    Htmx,
    Ping,
    RobotsTxt,
    StaticAppleIcon,
    StaticLargeIcon,
    StaticManifest,
    StaticMaskableLargeIcon,
    StaticMaskableMediumIcon,
    StaticMaskableSmallIcon,
    StaticMediumIcon,
    StaticSmallIcon,
    StaticTinyIcon,
    Void,
}

/// The path string of each route.
pub open spec fn route_string(r: Route) -> Seq<char> {
    match r {
        Route::AdminHome => "/admin"@,
        Route::AdminImportBook => "/admin/import-book"@,
        Route::AdminChangeRevision => "/admin/change-revision"@,
        Route::AdminToken => "/admin/manage-tokens"@,
        Route::AdminRevokeToken { token_id } => match token_id {
            Some(id) => "/admin/manage-tokens/"@ + spec_decimal(id as int),
            None => "/admin/manage-tokens/:token_id"@,
        },
        Route::Auth => "/"@,
        Route::About => "/about"@,
        Route::Book => "/book"@,
        Route::BookComment { block_id } => match block_id {
            Some(id) => "/block/"@ + spec_decimal(id as int) + "/comment"@,
            None => "/block/:block_id/comment"@,
        },
        Route::BookNextPage => "/book/next-page"@,
        Route::BookPrevPage => "/book/prev-page"@,
        Route::Favicon => "/favicon.ico"@,
        Route::Htmx => "/generated/htmx-2.0.2-mod3"@,
        Route::Ping => "/ping"@,
        Route::RobotsTxt => "/robots.txt"@,
        Route::StaticAppleIcon => "/static/apple_icon"@,
        Route::StaticLargeIcon => "/static/large-icon"@,
        Route::StaticManifest => "/static/manifest"@,
        Route::StaticMaskableLargeIcon => "/static/maskable-large-icon"@,
        Route::StaticMaskableMediumIcon => "/static/maskable-medium-icon"@,
        Route::StaticMaskableSmallIcon => "/static/maskable-small-icon"@,
        Route::StaticMediumIcon => "/static/icon"@,
        Route::StaticSmallIcon => "/static/xs-icon"@,
        Route::StaticTinyIcon => "/static/xxs-icon"@,
        Route::Void => "/void"@,
    }
}

impl Route {
    /// The path this route is served under.
    pub fn as_string(&self) -> (r: String)
        ensures
            r@ == route_string(*self),
    {
        match self {
            Route::AdminHome => String::from_str("/admin"),
            Route::AdminImportBook => String::from_str("/admin/import-book"),
            Route::AdminChangeRevision => String::from_str("/admin/change-revision"),
            Route::AdminToken => String::from_str("/admin/manage-tokens"),
            Route::AdminRevokeToken { token_id } => match token_id {
                Some(id) => {
                    let mut s = String::from_str("/admin/manage-tokens/");
                    let num = i32_to_string(*id);
                    s.append(num.as_str());
                    s
                },
                None => String::from_str("/admin/manage-tokens/:token_id"),
            },
            Route::Auth => String::from_str("/"),
            Route::About => String::from_str("/about"),
            Route::Book => String::from_str("/book"),
            Route::BookComment { block_id } => match block_id {
                Some(id) => {
                    let mut s = String::from_str("/block/");
                    let num = i32_to_string(*id);
                    s.append(num.as_str());
                    s.append("/comment");
                    s
                },
                None => String::from_str("/block/:block_id/comment"),
            },
            Route::BookNextPage => String::from_str("/book/next-page"),
            Route::BookPrevPage => String::from_str("/book/prev-page"),
            Route::Favicon => String::from_str("/favicon.ico"),
            Route::Htmx => String::from_str("/generated/htmx-2.0.2-mod3"),
            Route::Ping => String::from_str("/ping"),
            Route::RobotsTxt => String::from_str("/robots.txt"),
            Route::StaticAppleIcon => String::from_str("/static/apple_icon"),
            Route::StaticLargeIcon => String::from_str("/static/large-icon"),
            Route::StaticManifest => String::from_str("/static/manifest"),
            Route::StaticMaskableLargeIcon => String::from_str("/static/maskable-large-icon"),
            Route::StaticMaskableMediumIcon => String::from_str("/static/maskable-medium-icon"),
            Route::StaticMaskableSmallIcon => String::from_str("/static/maskable-small-icon"),
            Route::StaticMediumIcon => String::from_str("/static/icon"),
            Route::StaticSmallIcon => String::from_str("/static/xs-icon"),
            Route::StaticTinyIcon => String::from_str("/static/xxs-icon"),
            Route::Void => String::from_str("/void"),
        }
    }
}

} // verus!
