use quotes_api::database::{Database, StoreError};
use quotes_api::handlers::{
    all, all_bending, all_book, all_characters, all_episode, all_nation, bending, book, character,
    episode, invalid_count, nation, random, wrap, wrap_listing, Body, ColumnResult, NumberError,
    QueryParams, QuoteResult, RandomParams, Response, StatusCode,
};
use quotes_api::database::Column;

const SOURCE: &str = "\
quote|character|nation|bending|episode|book
I'm the Avatar, and I'm here to help.|Aang|Air|All|The Avatar Returns|Water
We have to get out of here.|Aang|Air|All|Imprisoned|Water
There's always hope.|Aang|Air|All|Imprisoned|Water
I can feel the earth move.|Aang|Air|All|The Blind Bandit|Earth
Rock is a stubborn element.|Aang|Air|All|Bitter Work|Earth
Flameo, hotman!|Aang|Air|All|The Headband|Fire
I will never turn my back on people who need me.|Katara|Water|Water|Imprisoned|Water
The earthbenders need their courage back.|Katara|Water|Water|Imprisoned|Water
My father was taken by the Fire Nation.|Haru|Earth|Earth|Imprisoned|Water
This plan is crazy enough to work.|Sokka|Water|None|Imprisoned|Water
I must capture the Avatar to restore my honor.|Zuko|Fire|Fire|The Avatar Returns|Water
There's nothing wrong with me.|Zuko|Fire|Fire|Zuko Alone|Earth
Lightning is a pure expression of firebending.|Iroh|Fire|Fire|Bitter Work|Earth
Sharing tea with a fascinating stranger is one of life's true delights.|Iroh|Fire|Fire|The Tales of Ba Sing Se|Earth
I'm about to celebrate becoming an only child.|Azula|Fire|Fire|The Chase|Earth
That's a sharp outfit, Chan.|Azula|Fire|Fire|The Beach|Fire
I am the greatest earthbender in the world.|Toph|Earth|Earth|The Blind Bandit|Earth
Welcome, young Avatar.|Koh|Spirit|None|The Siege of the North, Part 2|Water
We'll meet again.|Koh|Spirit|None|The Siege of the North, Part 2|Water
I am a warrior, but I'm a girl too.|Suki|Earth|None|The Warriors of Kyoshi|Water
";

fn database() -> Database {
    Database::new(SOURCE.as_bytes()).expect("the fixture is well formed")
}

fn query(value: &str, num: Option<u64>) -> QueryParams {
    QueryParams::new(value.to_string(), num).expect("the count is valid")
}

fn quotes(response: Response) -> QuoteResult {
    match response.body {
        Body::Quotes(result) => result,
        other => panic!("expected quotes, got {:?}", other),
    }
}

fn values(response: Response) -> ColumnResult {
    match response.body {
        Body::Values(result) => result,
        other => panic!("expected values, got {:?}", other),
    }
}

#[test]
fn test_all_quote_endpoints_with_valid_inputs_check_num() {
    let db = database();
    assert_eq!(quotes(random(RandomParams::new(None).unwrap(), &db)).num, 5);
    assert_eq!(quotes(character(query("Aang", None), &db)).num, 5);
    assert_eq!(quotes(nation(query("Fire", None), &db)).num, 5);
    assert_eq!(quotes(bending(query("All", None), &db)).num, 5);
    assert_eq!(quotes(episode(query("Imprisoned", None), &db)).num, 5);
    assert_eq!(quotes(book(query("Earth", None), &db)).num, 5);
}

#[test]
fn test_quote_non_default_num() {
    let db = database();
    assert_eq!(quotes(random(RandomParams::new(Some(6)).unwrap(), &db)).num, 6);
}

#[test]
fn test_quote_invalid_num() {
    let too_large = RandomParams::new(Some(256)).unwrap_err();
    assert_eq!(invalid_count(too_large).status, StatusCode::BadRequest);
    let zero = RandomParams::new(Some(0)).unwrap_err();
    assert_eq!(invalid_count(zero).status, StatusCode::BadRequest);
}

#[test]
fn test_quote_endpoints_with_invalid_value() {
    let db = database();
    assert_eq!(quotes(character(query("Ong", None), &db)).num, 0);
    assert_eq!(quotes(nation(query("Swamp", None), &db)).num, 0);
    assert_eq!(quotes(bending(query("Blood", None), &db)).num, 0);
    assert_eq!(quotes(episode(query("Hello", None), &db)).num, 0);
    assert_eq!(quotes(book(query("Moon", None), &db)).num, 0);
}

#[test]
fn test_quote_endpoint_correct_num_despite_query_param() {
    let db = database();
    assert_eq!(quotes(character(query("Koh", Some(5)), &db)).num, 2);
}

#[test]
fn test_quote_endpoints_with_valid_inputs_check_value() {
    let db = database();
    assert_eq!(quotes(character(query("Aang", None), &db)).quotes.first().unwrap().character, "Aang");
    assert_eq!(quotes(nation(query("Fire", None), &db)).quotes.first().unwrap().nation, "Fire");
    assert_eq!(quotes(bending(query("None", None), &db)).quotes.first().unwrap().bending, "None");
    assert_eq!(
        quotes(episode(query("Imprisoned", None), &db)).quotes.first().unwrap().episode,
        "Imprisoned"
    );
    assert_eq!(quotes(book(query("Fire", None), &db)).quotes.first().unwrap().book, "Fire");
}

#[test]
fn test_column_endpoints_for_an_expected_value() {
    let db = database();
    assert!(values(all_characters(&db)).values.contains(&"Aang".to_string()));
    assert!(values(all_nation(&db)).values.contains(&"Water".to_string()));
    assert!(values(all_bending(&db)).values.contains(&"All".to_string()));
    assert!(values(all_episode(&db)).values.contains(&"The Avatar Returns".to_string()));
    assert!(values(all_book(&db)).values.contains(&"Fire".to_string()));
}

#[test]
fn unfiltered_sample_with_default_count_succeeds_with_five() {
    let db = database();
    let response = random(RandomParams { num: None }, &db);
    assert_eq!(response.status, StatusCode::Success);
    assert_eq!(response.status.as_u16(), 200);
    let result = quotes(response);
    assert_eq!(result.num, 5);
    assert_eq!(result.quotes.len(), 5);
}

#[test]
fn filtered_sample_holds_only_the_character_asked_for() {
    let db = database();
    for _ in 0..50 {
        let response = character(query("Aang", None), &db);
        assert_eq!(response.status, StatusCode::Success);
        let result = quotes(response);
        assert_eq!(result.num, 5);
        assert!(result.quotes.iter().all(|quote| quote.character == "Aang"));
    }
}

#[test]
fn filtered_sample_of_an_absent_value_is_a_client_error() {
    let db = database();
    let response = character(query("Ong", None), &db);
    assert_eq!(response.status, StatusCode::BadRequest);
    assert_eq!(response.status.as_u16(), 400);
    let result = quotes(response);
    assert_eq!(result.num, 0);
    assert!(result.quotes.is_empty());
}

#[test]
fn filtered_sample_returns_all_matches_where_fewer_than_asked() {
    let db = database();
    let response = character(query("Koh", Some(5)), &db);
    assert_eq!(response.status, StatusCode::Success);
    let result = quotes(response);
    assert_eq!(result.num, 2);
    assert!(result.quotes.iter().all(|quote| quote.character == "Koh"));
    assert_ne!(result.quotes[0].quote, result.quotes[1].quote);
}

#[test]
fn filter_is_case_sensitive() {
    let db = database();
    let response = character(query("aang", None), &db);
    assert_eq!(response.status, StatusCode::BadRequest);
    assert_eq!(quotes(response).num, 0);
}

#[test]
fn empty_value_matches_nothing() {
    let db = database();
    let response = nation(query("", None), &db);
    assert_eq!(response.status, StatusCode::BadRequest);
    assert_eq!(quotes(response).num, 0);
}

#[test]
fn unfiltered_sample_of_an_empty_dataset_succeeds_with_none() {
    let db = Database::from_records(Vec::new()).unwrap();
    let response = random(RandomParams { num: None }, &db);
    assert_eq!(response.status, StatusCode::Success);
    assert_eq!(quotes(response).num, 0);
}

#[test]
fn count_is_refused_before_the_store_is_asked() {
    assert_eq!(RandomParams::new(Some(0)).unwrap_err(), NumberError::GreaterViolated);
    assert_eq!(RandomParams::new(Some(256)).unwrap_err(), NumberError::OutOfRange);
    assert_eq!(
        QueryParams::new("Aang".to_string(), Some(0)).unwrap_err(),
        NumberError::GreaterViolated
    );
    assert_eq!(
        QueryParams::new("Aang".to_string(), Some(u64::MAX)).unwrap_err(),
        NumberError::OutOfRange
    );
    let response = invalid_count(NumberError::GreaterViolated);
    assert_eq!(response.status.as_u16(), 400);
    match response.body {
        Body::Text(message) => assert_eq!(message, "num must be greater than 0"),
        other => panic!("expected text, got {:?}", other),
    }
    match invalid_count(NumberError::OutOfRange).body {
        Body::Text(message) => assert_eq!(message, "num must not be greater than 255"),
        other => panic!("expected text, got {:?}", other),
    }
}

#[test]
fn largest_count_is_accepted() {
    let db = database();
    let params = RandomParams::new(Some(255)).unwrap();
    assert_eq!(params.num.unwrap().into_inner(), 255);
    assert_eq!(quotes(random(params, &db)).num, 20);
}

#[test]
fn nation_listing_holds_each_nation_once() {
    let db = database();
    let response = all_nation(&db);
    assert_eq!(response.status, StatusCode::Success);
    let result = values(response);
    assert_eq!(result.num, 5);
    assert_eq!(result.values, vec!["Air", "Water", "Earth", "Fire", "Spirit"]);
}

#[test]
fn listing_by_column_agrees_with_the_named_entry_point() {
    let db = database();
    assert_eq!(values(all(&db, Column::Book)).values, values(all_book(&db)).values);
    assert_eq!(values(all(&db, Column::Book)).values, vec!["Water", "Earth", "Fire"]);
}

#[test]
fn wrap_reports_a_store_failure_as_internal_error() {
    let failure = StoreError { message: "connection lost".to_string() };
    let response = wrap(Err(failure), true);
    assert_eq!(response.status, StatusCode::InternalServerError);
    assert_eq!(response.status.as_u16(), 500);
    match response.body {
        Body::Text(message) => assert_eq!(message, "connection lost"),
        other => panic!("expected text, got {:?}", other),
    }
    let failure = StoreError { message: "connection lost".to_string() };
    assert_eq!(wrap_listing(Err(failure)).status, StatusCode::InternalServerError);
}

#[test]
fn wrap_tells_filtered_from_unfiltered_where_nothing_is_found() {
    assert_eq!(wrap(Ok(Vec::new()), true).status, StatusCode::BadRequest);
    assert_eq!(wrap(Ok(Vec::new()), false).status, StatusCode::Success);
    assert_eq!(wrap_listing(Ok(Vec::new())).status, StatusCode::Success);
}
