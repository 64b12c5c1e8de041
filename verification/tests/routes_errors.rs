use ides::bytes::{to_base64, to_hex};
use ides::error::{ErrStack, ErrT};
use ides::models::{PaginationParams, SqlPagination};
use ides::routes::Route;

#[test]
fn test_route_strings() {
    assert_eq!(Route::AdminHome.as_string(), "/admin");
    assert_eq!(Route::AdminImportBook.as_string(), "/admin/import-book");
    assert_eq!(Route::AdminChangeRevision.as_string(), "/admin/change-revision");
    assert_eq!(Route::AdminToken.as_string(), "/admin/manage-tokens");
    assert_eq!(Route::Auth.as_string(), "/");
    assert_eq!(Route::About.as_string(), "/about");
    assert_eq!(Route::Book.as_string(), "/book");
    assert_eq!(Route::BookNextPage.as_string(), "/book/next-page");
    assert_eq!(Route::BookPrevPage.as_string(), "/book/prev-page");
    assert_eq!(Route::Void.as_string(), "/void");
}

#[test]
fn test_route_strings_with_parameters() {
    assert_eq!(
        Route::AdminRevokeToken { token_id: Some(17) }.as_string(),
        "/admin/manage-tokens/17"
    );
    assert_eq!(
        Route::AdminRevokeToken { token_id: None }.as_string(),
        "/admin/manage-tokens/:token_id"
    );
    assert_eq!(Route::BookComment { block_id: Some(42) }.as_string(), "/block/42/comment");
    assert_eq!(Route::BookComment { block_id: None }.as_string(), "/block/:block_id/comment");
    assert_eq!(Route::BookComment { block_id: Some(0) }.as_string(), "/block/0/comment");
    assert_eq!(Route::BookComment { block_id: Some(-3) }.as_string(), "/block/-3/comment");
}

#[test]
fn test_err_stack_order_and_context() {
    let e = ErrStack::new(ErrT::SqlxError)
        .ctx("query failed".into())
        .wrap(ErrT::BookUi)
        .ctx("while rendering".into());
    assert_eq!(e.peek(), ErrT::BookUi);
    let kinds = e.jenga();
    assert_eq!(kinds, vec![ErrT::BookUi, ErrT::SqlxError]);
}

#[test]
fn test_err_stack_auth_failure_detection() {
    let plain = ErrStack::new(ErrT::SqlxError);
    assert!(!plain.is_auth_failure());
    let auth = ErrStack::new(ErrT::AuthNotAuthenticated).wrap(ErrT::AuthMiddleware);
    assert!(auth.is_auth_failure());
}

#[test]
fn test_sql_pagination_from_params() {
    let p: SqlPagination = PaginationParams { page: Some(2) }.into();
    assert_eq!(p.limit, 100);
    assert_eq!(p.offset, 200);
    let p: SqlPagination = PaginationParams { page: None }.into();
    assert_eq!(p.offset, 0);
    let p: SqlPagination = PaginationParams { page: Some(i64::MAX) }.into();
    assert_eq!(p.offset, i64::MAX);
}

#[test]
fn test_to_hex() {
    assert_eq!(to_hex(&[]), "");
    assert_eq!(to_hex(&[0x00, 0xff, 0xde, 0xad]), "00ffdead");
}

#[test]
fn test_to_base64() {
    assert_eq!(to_base64(b"Man"), "TWFu");
    assert_eq!(to_base64(b"hello"), "aGVsbG8=");
    assert_eq!(to_base64(b""), "");
}
