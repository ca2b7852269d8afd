//! Tests of the catalog client: deserialization of both endpoint
//! bodies, extraction, the error taxonomy, URLs and the credential.

use quotecast::client::{get_genre_lists, get_top_books, lists_url, names_url, ApiCredential};
use quotecast::model::{ApiError, BookDetailsType, ItemRecord, ListsType, NameRecord, Obj};
use quotecast::scheduler::format_quote;

fn names_body(results: &str) -> String {
    format!(
        "{{\"status\":\"OK\",\"copyright\":\"c\",\"num_results\":2,\"results\":{}}}",
        results
    )
}

fn lists_body(results: &str) -> String {
    format!(
        "{{\"status\":\"OK\",\"copyright\":\"c\",\"num_results\":1,\"last_modified\":\"today\",\"results\":{}}}",
        results
    )
}

#[test]
fn round_trip_single_record() {
    // One item-detail record with title "T", author "A",
    // description "D" comes back as exactly one summary, and the
    // formatted broadcast text is the exact literal.
    let body = lists_body(
        "[{\"list_name\":\"funny\",\"rank\":1,\"book_details\":[{\"title\":\"T\",\"author\":\"A\",\"description\":\"D\"}]}]",
    );
    let books = get_top_books(&body).expect("must deserialize");
    assert_eq!(books.len(), 1);
    assert_eq!(books[0].title, "T");
    assert_eq!(books[0].author, "A");
    assert_eq!(books[0].description, "D");
    assert_eq!(format_quote(&books[0]), "D\n-_A_");
}

#[test]
fn list_categories_zero_results_is_empty_result() {
    // Zero result entries: an empty result, not an empty success and
    // not a transport error.
    let body = names_body("[]");
    let r = get_genre_lists(&body);
    assert_eq!(r, Err(ApiError::EmptyResult));
    assert_ne!(r, Err(ApiError::TransportError));
}

#[test]
fn list_categories_extracts_in_order() {
    let body = names_body(
        "[{\"list_name\":\"funny\",\"updated\":\"WEEKLY\"},{\"display_name\":\"no name here\"},{\"list_name\":\"fiction\"}]",
    );
    let names = get_genre_lists(&body).expect("must deserialize");
    assert_eq!(names, vec!["funny".to_string(), "fiction".to_string()]);
}

#[test]
fn list_categories_transport_error_on_garbage() {
    assert_eq!(get_genre_lists("not json at all"), Err(ApiError::TransportError));
    assert_eq!(get_genre_lists(""), Err(ApiError::TransportError));
    // missing the results member
    assert_eq!(
        get_genre_lists("{\"status\":\"OK\",\"copyright\":\"c\"}"),
        Err(ApiError::TransportError)
    );
    // trailing junk after the document
    let body = format!("{} extra", names_body("[{\"list_name\":\"funny\"}]"));
    assert_eq!(get_genre_lists(&body), Err(ApiError::TransportError));
}

#[test]
fn top_books_missing_field_is_malformed_record() {
    // A present record lacking a required field is a data-contract
    // violation, not an empty result and not silently defaulted.
    let body = lists_body(
        "[{\"book_details\":[{\"title\":\"T\",\"author\":\"A\"}]}]",
    );
    assert_eq!(get_top_books(&body), Err(ApiError::MalformedRecord));
}

#[test]
fn top_books_zero_records_is_empty_result() {
    let body = lists_body("[{\"book_details\":[]}]");
    assert_eq!(get_top_books(&body), Err(ApiError::EmptyResult));
    let body2 = lists_body("[]");
    assert_eq!(get_top_books(&body2), Err(ApiError::EmptyResult));
}

#[test]
fn top_books_preserves_outer_to_inner_order() {
    let body = lists_body(
        "[{\"book_details\":[{\"title\":\"T1\",\"author\":\"A1\",\"description\":\"D1\"},{\"title\":\"T2\",\"author\":\"A2\",\"description\":\"D2\"}]},{\"book_details\":[{\"title\":\"T3\",\"author\":\"A3\",\"description\":\"D3\"}]}]",
    );
    let books = get_top_books(&body).expect("must deserialize");
    let titles: Vec<String> = books.iter().map(|b| b.title.clone()).collect();
    assert_eq!(titles, vec!["T1".to_string(), "T2".to_string(), "T3".to_string()]);
}

#[test]
fn top_books_skips_unknown_members_and_values() {
    // Extraneous upstream fields of every kind are ignored by design.
    let body = lists_body(
        "[{\"list_name\":\"funny\",\"rank\":-1.5e2,\"asterisk\":0,\"isbns\":[{\"isbn10\":\"x\"}],\"reviews\":[],\"flag\":true,\"nothing\":null,\"book_details\":[{\"title\":\"T\",\"price\":9.99,\"author\":\"A\",\"tags\":[[1,2],{\"a\":\"]\"}],\"description\":\"D\"}]}]",
    );
    let books = get_top_books(&body).expect("must deserialize");
    assert_eq!(books.len(), 1);
    assert_eq!(books[0].description, "D");
}

#[test]
fn string_escapes_are_decoded() {
    let body = lists_body(
        "[{\"book_details\":[{\"title\":\"\\u0054x\",\"author\":\"a\\\"b\\\\c\",\"description\":\"line\\none\\ttab\"}]}]",
    );
    let books = get_top_books(&body).expect("must deserialize");
    assert_eq!(books[0].title, "Tx");
    assert_eq!(books[0].author, "a\"b\\c");
    assert_eq!(books[0].description, "line\none\ttab");
}

#[test]
fn lone_surrogate_escape_is_transport_error() {
    let body = lists_body(
        "[{\"book_details\":[{\"title\":\"\\uD800\",\"author\":\"A\",\"description\":\"D\"}]}]",
    );
    assert_eq!(get_top_books(&body), Err(ApiError::TransportError));
}

#[test]
fn get_list_names_on_typed_response() {
    let obj = Obj {
        results: vec![
            NameRecord { list_name: Some("funny".to_string()) },
            NameRecord { list_name: None },
            NameRecord { list_name: Some("travel".to_string()) },
        ],
    };
    assert_eq!(
        obj.get_list_names(),
        Some(vec!["funny".to_string(), "travel".to_string()])
    );
    let empty = Obj { results: vec![NameRecord { list_name: None }] };
    assert_eq!(empty.get_list_names(), None);
}

#[test]
fn top_book_details_on_typed_response() {
    let lists = ListsType {
        results: vec![BookDetailsType {
            book_details: vec![ItemRecord {
                title: Some("T".to_string()),
                author: Some("A".to_string()),
                description: Some("D".to_string()),
            }],
        }],
    };
    let books = lists.top_book_details().expect("complete record");
    assert_eq!(books[0].title, "T");

    let malformed = ListsType {
        results: vec![BookDetailsType {
            book_details: vec![ItemRecord {
                title: None,
                author: Some("A".to_string()),
                description: Some("D".to_string()),
            }],
        }],
    };
    assert_eq!(malformed.top_book_details(), Err(ApiError::MalformedRecord));

    let bare = ListsType { results: vec![] };
    assert_eq!(bare.top_book_details(), Err(ApiError::EmptyResult));
}

#[test]
fn credential_and_urls() {
    assert!(ApiCredential::new(String::new()).is_none());
    let credential = ApiCredential::new("k3y".to_string()).expect("non-empty");
    assert_eq!(
        names_url(&credential),
        "https://api.nytimes.com/svc/books/v3/lists/names.json?api-key=k3y"
    );
    assert_eq!(
        lists_url("funny", &credential),
        "https://api.nytimes.com/svc/books/v3/lists.json?list=funny&api-key=k3y"
    );
}

#[test]
fn error_descriptions() {
    assert!(ApiError::TransportError.describe().contains("deserialized"));
    assert!(ApiError::EmptyResult.describe().contains("no usable records"));
    assert!(ApiError::MalformedRecord.describe().contains("required field"));
}

#[test]
fn whitespace_is_tolerated_everywhere() {
    let body = " \t\r\n{ \"status\" : \"OK\" ,\n \"results\" : [ { \"list_name\" : \"funny\" } , { \"list_name\" : \"travel\" } ] }\n ";
    let names = get_genre_lists(body).expect("must deserialize");
    assert_eq!(names, vec!["funny".to_string(), "travel".to_string()]);
}

#[test]
fn last_occurrence_of_a_captured_member_decides() {
    let body = names_body("[{\"list_name\":\"old\",\"list_name\":\"new\"}]");
    assert_eq!(get_genre_lists(&body), Ok(vec!["new".to_string()]));
}

#[test]
fn non_string_list_name_counts_as_absent() {
    let body = names_body("[{\"list_name\":7},{\"list_name\":\"funny\"}]");
    assert_eq!(get_genre_lists(&body), Ok(vec!["funny".to_string()]));
}

#[test]
fn unterminated_string_is_transport_error() {
    let body = names_body("[{\"list_name\":\"funny]");
    assert_eq!(get_genre_lists(&body), Err(ApiError::TransportError));
}
