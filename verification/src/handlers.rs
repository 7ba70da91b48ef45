//! The service's entry points: one per sampling call and one per listing.
//!
//! Each takes the parameters of a request, already validated, and the store,
//! and returns the answer with its status. Turning a request into
//! parameters and an answer into bytes is left to the transport.
use crate::database::{
    by_column, lemma_sample_bounded, listed, matching_rows, sampled, views, Column, Database,
    FilterView, Quote, QuoteView, StoreError,
};
use vstd::prelude::*;

verus! {

/// How many quotes a sampling call returns where the request names no count.
pub const DEFAULT_COUNT: u8 = 5;

/// The largest count a request may name.
pub const MAX_COUNT: u64 = 255;

/// Why a count was refused.
#[derive(Clone, Copy, Debug, PartialEq, Eq, Structural)]
pub enum NumberError {
    /// The count is not greater than zero.
    GreaterViolated,
    /// The count is greater than [`MAX_COUNT`].
    OutOfRange,
}

impl NumberError {
    /// What the refusal says.
    pub open spec fn reason(self) -> Seq<char> {
        match self {
            NumberError::GreaterViolated => "num must be greater than 0"@,
            NumberError::OutOfRange => "num must not be greater than 255"@,
        }
    }

    /// What the refusal says, as text for an answer.
    pub fn message(&self) -> (message: String)
        ensures
            message@ == self.reason(),
    {
        match self {
            NumberError::GreaterViolated => "num must be greater than 0".to_owned(),
            NumberError::OutOfRange => "num must not be greater than 255".to_owned(),
        }
    }
}

/// A count of quotes to return: a number from 1 to [`MAX_COUNT`].
#[derive(Clone, Copy, Debug)]
pub struct Number(u8);

impl View for Number {
    type V = u8;

    closed spec fn view(&self) -> u8 {
        self.0
    }
}

impl Number {
    #[verifier::type_invariant]
    spec fn positive(self) -> bool {
        self.0 > 0
    }

    /// Accepts a count that is greater than zero.
    pub fn new(value: u8) -> (outcome: Result<Number, NumberError>)
        ensures
            match outcome {
                Ok(number) => value > 0 && number@ == value,
                Err(error) => value == 0 && error == NumberError::GreaterViolated,
            },
    {
        if value > 0 {
            Ok(Number(value))
        } else {
            Err(NumberError::GreaterViolated)
        }
    }

    /// Accepts a count as a request carries it: refused where it is zero
    /// and where it is greater than [`MAX_COUNT`].
    pub fn from_raw(raw: u64) -> (outcome: Result<Number, NumberError>)
        ensures
            match outcome {
                Ok(number) => 0 < raw <= MAX_COUNT && number@ == raw,
                Err(NumberError::GreaterViolated) => raw == 0,
                Err(NumberError::OutOfRange) => raw > MAX_COUNT,
            },
    {
        if raw == 0 {
            Err(NumberError::GreaterViolated)
        } else if raw > MAX_COUNT {
            Err(NumberError::OutOfRange)
        } else {
            Ok(Number(raw as u8))
        }
    }

    /// The count itself.
    pub fn into_inner(self) -> (value: u8)
        ensures
            value == self@,
            value > 0,
    {
        proof {
            use_type_invariant(&self);
        }
        self.0
    }
}

/// The count of a request that may name none.
pub open spec fn count_of(num: Option<Number>) -> u8 {
    match num {
        Some(number) => number@,
        None => DEFAULT_COUNT,
    }
}

/// The parameters of a filtered sampling call.
#[derive(Debug)]
pub struct QueryParams {
    pub value: String,
    pub num: Option<Number>,
}

/// The parameters of the unfiltered sampling call.
#[derive(Debug)]
pub struct RandomParams {
    pub num: Option<Number>,
}

fn checked(num: Option<u64>) -> (outcome: Result<Option<Number>, NumberError>)
    ensures
        match outcome {
            Ok(Some(number)) => num matches Some(raw) && 0 < raw <= MAX_COUNT && number@ == raw,
            Ok(None) => num is None,
            Err(NumberError::GreaterViolated) => num == Some(0u64),
            Err(NumberError::OutOfRange) => num matches Some(raw) && raw > MAX_COUNT,
        },
{
    match num {
        Some(raw) => match Number::from_raw(raw) {
            Ok(number) => Ok(Some(number)),
            Err(error) => Err(error),
        },
        None => Ok(None),
    }
}

impl QueryParams {
    /// The parameters for a value and a count as a request carries them.
    /// A count that is given must be from 1 to [`MAX_COUNT`].
    pub fn new(value: String, num: Option<u64>) -> (outcome: Result<QueryParams, NumberError>)
        ensures
            match outcome {
                Ok(params) => {
                    &&& params.value == value
                    &&& match params.num {
                        Some(number) => num matches Some(raw) && 0 < raw <= MAX_COUNT && number@
                            == raw,
                        None => num is None,
                    }
                },
                Err(NumberError::GreaterViolated) => num == Some(0u64),
                Err(NumberError::OutOfRange) => num matches Some(raw) && raw > MAX_COUNT,
            },
    {
        match checked(num) {
            Ok(num) => Ok(QueryParams { value, num }),
            Err(error) => Err(error),
        }
    }
}

impl RandomParams {
    /// The parameters for a count as a request carries it. A count that is
    /// given must be from 1 to [`MAX_COUNT`].
    pub fn new(num: Option<u64>) -> (outcome: Result<RandomParams, NumberError>)
        ensures
            match outcome {
                Ok(params) => match params.num {
                    Some(number) => num matches Some(raw) && 0 < raw <= MAX_COUNT && number@ == raw,
                    None => num is None,
                },
                Err(NumberError::GreaterViolated) => num == Some(0u64),
                Err(NumberError::OutOfRange) => num matches Some(raw) && raw > MAX_COUNT,
            },
    {
        match checked(num) {
            Ok(num) => Ok(RandomParams { num }),
            Err(error) => Err(error),
        }
    }
}

/// The answer to a sampling call: the quotes and how many they are.
#[derive(Debug)]
pub struct QuoteResult {
    pub num: usize,
    pub quotes: Vec<Quote>,
}

/// The answer to a listing: the values and how many they are.
#[derive(Debug)]
pub struct ColumnResult {
    pub num: usize,
    pub values: Vec<String>,
}

/// How a call ended, as the transport reports it.
#[derive(Clone, Copy, Debug, PartialEq, Eq, Structural)]
pub enum StatusCode {
    /// The call succeeded.
    Success,
    /// The request was at fault: its count was refused, or its filter
    /// matched no quote.
    BadRequest,
    /// The store could not run the query.
    InternalServerError,
}

impl StatusCode {
    /// The status as a number.
    pub fn as_u16(&self) -> (code: u16)
        ensures
            code == match *self {
                StatusCode::Success => 200u16,
                StatusCode::BadRequest => 400u16,
                StatusCode::InternalServerError => 500u16,
            },
    {
        match self {
            StatusCode::Success => 200,
            StatusCode::BadRequest => 400,
            StatusCode::InternalServerError => 500,
        }
    }
}

/// What an answer carries.
#[derive(Debug)]
pub enum Body {
    Quotes(QuoteResult),
    Values(ColumnResult),
    Text(String),
}

/// The answer to a call: its status and what it carries.
#[derive(Debug)]
pub struct Response {
    pub status: StatusCode,
    pub body: Body,
}

/// The answer that `wrap` owes for the outcome of a sampling call.
///
/// Quotes are handed on as they are, with their number. The status is
/// `BadRequest` where a filtered call found nothing and `Success` for every
/// other sample. A failure of the store is `InternalServerError` with the
/// failure's message.
pub open spec fn wrapped(
    res: Result<Vec<Quote>, StoreError>,
    filtered: bool,
    response: Response,
) -> bool {
    match res {
        Ok(quotes) => {
            &&& response.status == if filtered && quotes@.len() == 0 {
                StatusCode::BadRequest
            } else {
                StatusCode::Success
            }
            &&& response.body matches Body::Quotes(result)
            &&& result.num == quotes@.len()
            &&& result.quotes == quotes
        },
        Err(error) => {
            &&& response.status == StatusCode::InternalServerError
            &&& response.body matches Body::Text(message)
            &&& message == error.message
        },
    }
}

/// Turns the outcome of a sampling call into an answer. `filtered` says
/// whether the call had a filter.
pub fn wrap(res: Result<Vec<Quote>, StoreError>, filtered: bool) -> (response: Response)
    ensures
        wrapped(res, filtered, response),
{
    match res {
        Ok(quotes) => {
            let status = if filtered && quotes.len() == 0 {
                StatusCode::BadRequest
            } else {
                StatusCode::Success
            };
            Response { status, body: Body::Quotes(QuoteResult { num: quotes.len(), quotes }) }
        },
        Err(error) => Response {
            status: StatusCode::InternalServerError,
            body: Body::Text(error.message),
        },
    }
}

/// The answer that a listing owes for its outcome: the values with their
/// number and `Success`, or `InternalServerError` with the failure's message.
pub open spec fn wrapped_listing(
    res: Result<Vec<String>, StoreError>,
    response: Response,
) -> bool {
    match res {
        Ok(values) => {
            &&& response.status == StatusCode::Success
            &&& response.body matches Body::Values(result)
            &&& result.num == values@.len()
            &&& result.values == values
        },
        Err(error) => {
            &&& response.status == StatusCode::InternalServerError
            &&& response.body matches Body::Text(message)
            &&& message == error.message
        },
    }
}

/// Turns the outcome of a listing into an answer.
pub fn wrap_listing(res: Result<Vec<String>, StoreError>) -> (response: Response)
    ensures
        wrapped_listing(res, response),
{
    match res {
        Ok(values) => Response {
            status: StatusCode::Success,
            body: Body::Values(ColumnResult { num: values.len(), values }),
        },
        Err(error) => Response {
            status: StatusCode::InternalServerError,
            body: Body::Text(error.message),
        },
    }
}

/// What a sampling entry point owes for the parameters of a request.
///
/// The answer carries a sample of at most `num` quotes that pass `filter`,
/// or of at most [`DEFAULT_COUNT`] where the request names no count, with
/// their number. It carries no quote exactly where no quote passes. The
/// status is `BadRequest` where a filtered call carries none, else `Success`.
pub open spec fn answered(
    quotes: Seq<QuoteView>,
    filter: Option<FilterView>,
    num: Option<Number>,
    response: Response,
) -> bool {
    response.body matches Body::Quotes(result) && {
        &&& sampled(quotes, filter, count_of(num) as nat, Ok(result.quotes))
        &&& result.num == result.quotes@.len()
        &&& result.num == 0 <==> matching_rows(quotes, filter).len() == 0
        &&& response.status == if filter is Some && result.num == 0 {
            StatusCode::BadRequest
        } else {
            StatusCode::Success
        }
    }
}

/// What a listing entry point owes: the distinct values of `column`, each
/// once, in the order of first appearance, with their number and `Success`.
pub open spec fn enumerated(quotes: Seq<QuoteView>, column: Column, response: Response) -> bool {
    &&& response.status == StatusCode::Success
    &&& response.body matches Body::Values(result)
    &&& result.num == result.values@.len()
    &&& listed(quotes, column, Ok(result.values))
}

fn count(num: Option<Number>) -> (count: u8)
    ensures
        count == count_of(num),
        count > 0,
{
    let default = Number(DEFAULT_COUNT);
    num.unwrap_or(default).into_inner()
}

/// A random sample of the whole dataset.
pub fn random(params: RandomParams, database: &Database) -> (response: Response)
    ensures
        answered(database@, None, params.num, response),
        response.status == StatusCode::Success,
{
    let num = count(params.num);
    let res = database.random(num);
    proof {
        lemma_sample_bounded(database@, None, num as nat, views(res->Ok_0@));
    }
    wrap(res, false)
}

/// A random sample of the quotes of one character.
pub fn character(params: QueryParams, database: &Database) -> (response: Response)
    ensures
        answered(database@, by_column(Column::Character, params.value@), params.num, response),
{
    let num = count(params.num);
    let res = database.character(params.value.as_str(), num);
    proof {
        let filter = by_column(Column::Character, params.value@);
        lemma_sample_bounded(database@, filter, num as nat, views(res->Ok_0@));
    }
    wrap(res, true)
}

/// A random sample of the quotes of one nation.
pub fn nation(params: QueryParams, database: &Database) -> (response: Response)
    ensures
        answered(database@, by_column(Column::Nation, params.value@), params.num, response),
{
    let num = count(params.num);
    let res = database.nation(params.value.as_str(), num);
    proof {
        let filter = by_column(Column::Nation, params.value@);
        lemma_sample_bounded(database@, filter, num as nat, views(res->Ok_0@));
    }
    wrap(res, true)
}

/// A random sample of the quotes of one kind of bending.
pub fn bending(params: QueryParams, database: &Database) -> (response: Response)
    ensures
        answered(database@, by_column(Column::Bending, params.value@), params.num, response),
{
    let num = count(params.num);
    let res = database.bending(params.value.as_str(), num);
    proof {
        let filter = by_column(Column::Bending, params.value@);
        lemma_sample_bounded(database@, filter, num as nat, views(res->Ok_0@));
    }
    wrap(res, true)
}

/// A random sample of the quotes of one episode.
pub fn episode(params: QueryParams, database: &Database) -> (response: Response)
    ensures
        answered(database@, by_column(Column::Episode, params.value@), params.num, response),
{
    let num = count(params.num);
    let res = database.episode(params.value.as_str(), num);
    proof {
        let filter = by_column(Column::Episode, params.value@);
        lemma_sample_bounded(database@, filter, num as nat, views(res->Ok_0@));
    }
    wrap(res, true)
}

/// A random sample of the quotes of one book.
pub fn book(params: QueryParams, database: &Database) -> (response: Response)
    ensures
        answered(database@, by_column(Column::Book, params.value@), params.num, response),
{
    let num = count(params.num);
    let res = database.book(params.value.as_str(), num);
    proof {
        let filter = by_column(Column::Book, params.value@);
        lemma_sample_bounded(database@, filter, num as nat, views(res->Ok_0@));
    }
    wrap(res, true)
}

/// The distinct values of `column`.
pub fn all(db: &Database, column: Column) -> (response: Response)
    ensures
        enumerated(db@, column, response),
{
    wrap_listing(db.get_all(column))
}

/// The characters of the dataset.
pub fn all_characters(database: &Database) -> (response: Response)
    ensures
        enumerated(database@, Column::Character, response),
{
    all(database, Column::Character)
}

/// The nations of the dataset.
pub fn all_nation(database: &Database) -> (response: Response)
    ensures
        enumerated(database@, Column::Nation, response),
{
    all(database, Column::Nation)
}

/// The kinds of bending of the dataset.
pub fn all_bending(database: &Database) -> (response: Response)
    ensures
        enumerated(database@, Column::Bending, response),
{
    all(database, Column::Bending)
}

/// The episodes of the dataset.
pub fn all_episode(database: &Database) -> (response: Response)
    ensures
        enumerated(database@, Column::Episode, response),
{
    all(database, Column::Episode)
}

/// The books of the dataset.
pub fn all_book(database: &Database) -> (response: Response)
    ensures
        enumerated(database@, Column::Book, response),
{
    all(database, Column::Book)
}

/// The answer to a request whose count was refused: `BadRequest`, with what
/// the refusal says. Such a request never reaches the store.
pub fn invalid_count(error: NumberError) -> (response: Response)
    ensures
        response.status == StatusCode::BadRequest,
        response.body matches Body::Text(message) && message@ == error.reason(),
{
    Response { status: StatusCode::BadRequest, body: Body::Text(error.message()) }
}

} // verus!
