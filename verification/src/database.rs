//! The data model and the store.
//!
//! A [`Database`] holds the quotes of a dataset in the order of its source
//! and never changes after it is loaded. It answers two questions: a
//! bounded random sample, of all quotes or of those that match a [`Filter`],
//! and the distinct values of a [`Column`].
//!
//! A sample is drawn by giving every row a random key and taking the
//! matching rows with the smallest keys. [`Database::sample_with_keys`] is
//! that draw for given keys, and is a function of its arguments;
//! [`Database::sample`] draws the keys, and its contract holds whatever
//! they are.
use crate::distinct::{first_seen, lemma_first_seen_covers, lemma_first_seen_distinct};
use crate::foreign::{csv_records, random_key, read_records};
use crate::sampling::{
    eligible, is_draw, is_selection, lemma_eligible_finite, lemma_selection_is_draw,
    lemma_selection_unique, positions, select_rows,
};
use vstd::prelude::*;

verus! {

/// One of the five categorical attributes of a quote.
#[derive(Clone, Copy, Debug, PartialEq, Eq, Structural)]
pub enum Column {
    Character,
    Nation,
    Bending,
    Episode,
    Book,
}

/// One record of the dataset: the quotation and its five attributes.
#[derive(Debug)]
pub struct Quote {
    pub quote: String,
    pub character: String,
    pub nation: String,
    pub bending: String,
    pub episode: String,
    pub book: String,
}

/// The mathematical value of a [`Quote`]: each field as a sequence of characters.
pub struct QuoteView {
    pub quote: Seq<char>,
    pub character: Seq<char>,
    pub nation: Seq<char>,
    pub bending: Seq<char>,
    pub episode: Seq<char>,
    pub book: Seq<char>,
}

impl QuoteView {
    /// The value this quote has for `column`.
    pub open spec fn attribute(self, column: Column) -> Seq<char> {
        match column {
            Column::Character => self.character,
            Column::Nation => self.nation,
            Column::Bending => self.bending,
            Column::Episode => self.episode,
            Column::Book => self.book,
        }
    }

    /// All six fields hold at least one character.
    pub open spec fn populated(self) -> bool {
        &&& self.quote.len() > 0
        &&& self.character.len() > 0
        &&& self.nation.len() > 0
        &&& self.bending.len() > 0
        &&& self.episode.len() > 0
        &&& self.book.len() > 0
    }
}

impl View for Quote {
    type V = QuoteView;

    open spec fn view(&self) -> QuoteView {
        QuoteView {
            quote: self.quote@,
            character: self.character@,
            nation: self.nation@,
            bending: self.bending@,
            episode: self.episode@,
            book: self.book@,
        }
    }
}

impl Clone for Quote {
    fn clone(&self) -> (copy: Quote)
        ensures
            copy == *self,
    {
        Quote {
            quote: self.quote.clone(),
            character: self.character.clone(),
            nation: self.nation.clone(),
            bending: self.bending.clone(),
            episode: self.episode.clone(),
            book: self.book.clone(),
        }
    }
}

impl Quote {
    /// The text this quote holds for `column`.
    pub fn attribute(&self, column: Column) -> (value: &String)
        ensures
            value@ == self@.attribute(column),
    {
        match column {
            Column::Character => &self.character,
            Column::Nation => &self.nation,
            Column::Bending => &self.bending,
            Column::Episode => &self.episode,
            Column::Book => &self.book,
        }
    }

    /// Whether every field holds at least one character.
    pub fn is_populated(&self) -> (yes: bool)
        ensures
            yes == self@.populated(),
    {
        !self.quote.as_str().is_empty() && !self.character.as_str().is_empty()
            && !self.nation.as_str().is_empty() && !self.bending.as_str().is_empty()
            && !self.episode.as_str().is_empty() && !self.book.as_str().is_empty()
    }
}

/// An exact-match condition on one attribute: case-sensitive, character for
/// character, with no normalisation.
#[derive(Debug)]
pub struct Filter {
    pub column: Column,
    pub value: String,
}

/// The mathematical value of a [`Filter`].
pub struct FilterView {
    pub column: Column,
    pub value: Seq<char>,
}

impl View for Filter {
    type V = FilterView;

    open spec fn view(&self) -> FilterView {
        FilterView { column: self.column, value: self.value@ }
    }
}

/// The condition of a query that may have none.
pub open spec fn criterion(filter: Option<&Filter>) -> Option<FilterView> {
    match filter {
        Some(filter) => Some(filter@),
        None => None,
    }
}

/// Whether a quote passes the filter; every quote passes where there is none.
pub open spec fn accepts(filter: Option<FilterView>, quote: QuoteView) -> bool {
    match filter {
        Some(filter) => quote.attribute(filter.column) == filter.value,
        None => true,
    }
}

/// For each row of the dataset, whether its quote passes the filter.
pub open spec fn verdicts(quotes: Seq<QuoteView>, filter: Option<FilterView>) -> Seq<bool> {
    Seq::new(quotes.len(), |row: int| accepts(filter, quotes[row]))
}

/// The rows of the dataset whose quotes pass the filter.
pub open spec fn matching_rows(quotes: Seq<QuoteView>, filter: Option<FilterView>) -> Set<int> {
    eligible(verdicts(quotes, filter))
}

/// The quotes at the given rows, in the order of the rows.
pub open spec fn quotes_at(quotes: Seq<QuoteView>, rows: Seq<int>) -> Seq<QuoteView> {
    Seq::new(rows.len(), |k: int| quotes[rows[k]])
}

/// The values of a vector of quotes.
pub open spec fn views(quotes: Seq<Quote>) -> Seq<QuoteView> {
    Seq::new(quotes.len(), |k: int| quotes[k]@)
}

/// The values of a vector of strings.
pub open spec fn texts(values: Seq<String>) -> Seq<Seq<char>> {
    Seq::new(values.len(), |k: int| values[k]@)
}

/// The value each row of the dataset has for `column`, in row order.
pub open spec fn column_of(quotes: Seq<QuoteView>, column: Column) -> Seq<Seq<char>> {
    Seq::new(quotes.len(), |row: int| quotes[row].attribute(column))
}

/// `sample` is a sample of at most `num` quotes that pass `filter`: the
/// quotes of matching rows, no row taken twice, `num` of them or all the
/// matching rows where there are fewer.
pub open spec fn is_sample(
    quotes: Seq<QuoteView>,
    filter: Option<FilterView>,
    num: nat,
    sample: Seq<QuoteView>,
) -> bool {
    exists|rows: Seq<int>| #[trigger]
        is_draw(verdicts(quotes, filter), num, rows) && sample == quotes_at(quotes, rows)
}

/// `sample` is the sample that `keys` fix: the quotes of the matching rows
/// with the smallest keys, in key order.
pub open spec fn is_keyed_sample(
    quotes: Seq<QuoteView>,
    filter: Option<FilterView>,
    num: nat,
    keys: Seq<u64>,
    sample: Seq<QuoteView>,
) -> bool {
    exists|rows: Seq<int>| #[trigger]
        is_selection(verdicts(quotes, filter), keys, num, rows) && sample == quotes_at(
            quotes,
            rows,
        )
}

/// The filter of a query for the quotes whose `column` is `value`.
pub open spec fn by_column(column: Column, value: Seq<char>) -> Option<FilterView> {
    Some(FilterView { column, value })
}

/// What a sampling call owes. The call succeeds, and what it returns
/// - is a sample: quotes of matching rows, no row taken twice, `num` of
///   them or all of them where fewer match;
/// - holds only quotes that pass the filter, each with all fields populated;
/// - holds no more than `num` quotes and no more than match.
pub open spec fn sampled(
    quotes: Seq<QuoteView>,
    filter: Option<FilterView>,
    num: nat,
    outcome: Result<Vec<Quote>, StoreError>,
) -> bool {
    outcome matches Ok(sample) && {
        &&& is_sample(quotes, filter, num, views(sample@))
        &&& forall|k: int| 0 <= k < sample@.len() ==> accepts(filter, (#[trigger] sample@[k])@)
        &&& forall|k: int| 0 <= k < sample@.len() ==> (#[trigger] sample@[k])@.populated()
        &&& sample@.len() <= num
        &&& sample@.len() <= matching_rows(quotes, filter).len()
    }
}

/// What a listing of the distinct values of `column` owes. The call
/// succeeds, and what it returns
/// - holds each value that `column` takes in the dataset, and nothing else;
/// - holds no value twice;
/// - is in the order in which the values first appear in the dataset.
pub open spec fn listed(
    quotes: Seq<QuoteView>,
    column: Column,
    outcome: Result<Vec<String>, StoreError>,
) -> bool {
    outcome matches Ok(values) && {
        &&& texts(values@) == first_seen(column_of(quotes, column))
        &&& texts(values@).no_duplicates()
        &&& forall|value: Seq<char>|
            texts(values@).contains(value) <==> column_of(quotes, column).contains(value)
    }
}

/// A query that the store could not run.
#[derive(Debug)]
pub struct StoreError {
    pub message: String,
}

/// The field separator of the dataset's source text.
pub const DELIMITER: u8 = 0x7c;

/// How many fields a source record must have: the quotation and the five
/// attributes, in the order of [`Quote`]'s fields.
pub const FIELDS: usize = 6;

/// The quote that a source record with at least [`FIELDS`] fields stands for.
pub open spec fn quote_of(record: Seq<Seq<char>>) -> QuoteView {
    QuoteView {
        quote: record[0],
        character: record[1],
        nation: record[2],
        bending: record[3],
        episode: record[4],
        book: record[5],
    }
}

/// A record that maps to a quote with every field populated.
pub open spec fn well_formed(record: Seq<Seq<char>>) -> bool {
    record.len() >= FIELDS && quote_of(record).populated()
}

/// The quotes that a sequence of source records stands for, in order.
pub open spec fn quotes_of(records: Seq<Seq<Seq<char>>>) -> Seq<QuoteView> {
    Seq::new(records.len(), |i: int| quote_of(records[i]))
}

/// Why a dataset could not be loaded.
#[derive(Debug)]
pub enum IngestionError {
    /// The source text could not be split into records.
    Unreadable(csv::Error),
    /// The record at this position (the header not counted) has fewer than
    /// [`FIELDS`] fields.
    MissingField { record: usize },
    /// The record at this position has all its fields, one of them empty.
    EmptyField { record: usize },
}

/// The quotes of the dataset, in the order of the source, fixed at load.
pub struct Database {
    quotes: Vec<Quote>,
}

impl View for Database {
    type V = Seq<QuoteView>;

    closed spec fn view(&self) -> Seq<QuoteView> {
        Seq::new(self.quotes@.len(), |i: int| self.quotes@[i]@)
    }
}

/// What loading `records` must give: the store of all their quotes where
/// every record is well formed, else the first record that is not, with the
/// reason.
pub open spec fn ingested(
    records: Seq<Seq<Seq<char>>>,
    outcome: Result<Database, IngestionError>,
) -> bool {
    match outcome {
        Ok(database) => {
            &&& forall|i: int| 0 <= i < records.len() ==> well_formed(#[trigger] records[i])
            &&& database@ == quotes_of(records)
        },
        Err(IngestionError::MissingField { record }) => {
            &&& record < records.len()
            &&& records[record as int].len() < FIELDS
            &&& forall|i: int| 0 <= i < record ==> well_formed(#[trigger] records[i])
        },
        Err(IngestionError::EmptyField { record }) => {
            &&& record < records.len()
            &&& records[record as int].len() >= FIELDS
            &&& !quote_of(records[record as int]).populated()
            &&& forall|i: int| 0 <= i < record ==> well_formed(#[trigger] records[i])
        },
        Err(IngestionError::Unreadable(_)) => false,
    }
}

impl Database {
    #[verifier::type_invariant]
    spec fn every_quote_populated(self) -> bool {
        forall|i: int| 0 <= i < self.quotes@.len() ==> (#[trigger] self.quotes@[i])@.populated()
    }

    /// Loads a dataset from its source text: records separated by line
    /// breaks, fields by [`DELIMITER`], the first record being the header.
    pub fn new(data: &[u8]) -> (outcome: Result<Database, IngestionError>)
        ensures
            match csv_records(data@, DELIMITER) {
                Some(records) => ingested(records, outcome),
                None => outcome matches Err(IngestionError::Unreadable(_)),
            },
    {
        match read_records(data, DELIMITER) {
            Ok(records) => Database::from_records(records),
            Err(error) => Err(IngestionError::Unreadable(error)),
        }
    }

    /// Loads a dataset from records already split into fields. Fields past
    /// the sixth are ignored.
    pub fn from_records(records: Vec<Vec<String>>) -> (outcome: Result<Database, IngestionError>)
        ensures
            ingested(records.deep_view(), outcome),
    {
        let mut quotes: Vec<Quote> = Vec::new();
        let mut i: usize = 0;
        while i < records.len()
            invariant
                i <= records.len(),
                quotes@.len() == i,
                forall|k: int| 0 <= k < i ==> well_formed(#[trigger] records.deep_view()[k]),
                forall|k: int| 0 <= k < i ==> (#[trigger] quotes@[k])@ == quote_of(records.deep_view()[k]),
            decreases records.len() - i,
        {
            let record = &records[i];
            assert(records.deep_view()[i as int] == record.deep_view());
            if record.len() < FIELDS {
                return Err(IngestionError::MissingField { record: i });
            }
            let quote = Quote {
                quote: record[0].clone(),
                character: record[1].clone(),
                nation: record[2].clone(),
                bending: record[3].clone(),
                episode: record[4].clone(),
                book: record[5].clone(),
            };
            assert(quote@ == quote_of(record.deep_view()));
            if !quote.is_populated() {
                return Err(IngestionError::EmptyField { record: i });
            }
            quotes.push(quote);
            i += 1;
        }
        let database = Database { quotes };
        assert(database@ =~= quotes_of(records.deep_view()));
        Ok(database)
    }

    /// The number of quotes in the dataset.
    pub fn len(&self) -> (len: usize)
        ensures
            len == self@.len(),
    {
        self.quotes.len()
    }

    fn mark(&self, filter: Option<&Filter>) -> (accepted: Vec<bool>)
        ensures
            accepted@ == verdicts(self@, criterion(filter)),
    {
        let mut accepted: Vec<bool> = Vec::new();
        let mut row: usize = 0;
        while row < self.quotes.len()
            invariant
                row <= self.quotes@.len(),
                accepted@.len() == row,
                forall|k: int|
                    0 <= k < row ==> accepted@[k] == accepts(criterion(filter), self.quotes@[k]@),
            decreases self.quotes@.len() - row,
        {
            let passes = match filter {
                Some(filter) => *self.quotes[row].attribute(filter.column) == filter.value,
                None => true,
            };
            accepted.push(passes);
            row += 1;
        }
        assert(accepted@ =~= verdicts(self@, criterion(filter)));
        accepted
    }

    /// The sample that `keys` fix. Row `i` of the dataset has key `keys[i]`,
    /// or 0 where `keys` is shorter; the sample holds the matching rows with
    /// the smallest keys, in the order of their keys, rows with equal keys in
    /// the order of the dataset.
    pub fn sample_with_keys(&self, filter: Option<&Filter>, num: u8, keys: &Vec<u64>) -> (sample:
        Vec<Quote>)
        ensures
            is_keyed_sample(self@, criterion(filter), num as nat, keys@, views(sample@)),
    {
        let accepted = self.mark(filter);
        let rows = select_rows(&accepted, keys, num);
        let mut sample: Vec<Quote> = Vec::new();
        let mut k: usize = 0;
        while k < rows.len()
            invariant
                k <= rows@.len(),
                sample@.len() == k,
                accepted@.len() == self.quotes@.len(),
                is_selection(accepted@, keys@, num as nat, positions(rows@)),
                forall|j: int| 0 <= j < k ==> (#[trigger] sample@[j])@ == self.quotes@[rows@[j] as int]@,
            decreases rows@.len() - k,
        {
            assert(eligible(accepted@).contains(positions(rows@)[k as int]));
            sample.push(self.quotes[rows[k]].clone());
            k += 1;
        }
        assert(views(sample@) =~= quotes_at(self@, positions(rows@))) by {
            assert forall|j: int| 0 <= j < rows@.len() implies views(sample@)[j] == quotes_at(
                self@,
                positions(rows@),
            )[j] by {
                assert(eligible(accepted@).contains(positions(rows@)[j]));
            }
        }
        sample
    }

    /// A random sample of at most `num` quotes that pass `filter`, or of
    /// the whole dataset where there is no filter, in random order. Fewer
    /// than `num` matching quotes are all returned; none is an empty sample,
    /// not an error.
    pub fn sample(&self, filter: Option<&Filter>, num: u8) -> (outcome: Result<
        Vec<Quote>,
        StoreError,
    >)
        ensures
            sampled(self@, criterion(filter), num as nat, outcome),
    {
        let mut keys: Vec<u64> = Vec::new();
        let mut row: usize = 0;
        while row < self.quotes.len()
            invariant
                row <= self.quotes@.len(),
                keys@.len() == row,
            decreases self.quotes@.len() - row,
        {
            keys.push(random_key());
            row += 1;
        }
        let sample = self.sample_with_keys(filter, num, &keys);
        proof {
            use_type_invariant(self);
            lemma_keyed_sample_is_sample(self@, criterion(filter), num as nat, keys@, views(sample@));
            lemma_sample_obeys_filter(self@, criterion(filter), num as nat, views(sample@));
            lemma_sample_bounded(self@, criterion(filter), num as nat, views(sample@));
            lemma_sample_from_dataset(self@, criterion(filter), num as nat, views(sample@));
            assert forall|k: int| 0 <= k < sample@.len() implies accepts(
                criterion(filter),
                (#[trigger] sample@[k])@,
            ) by {
                assert(accepts(criterion(filter), views(sample@)[k]));
            }
            assert forall|k: int| 0 <= k < sample@.len() implies (#[trigger] sample@[k])@.populated() by {
                assert(self@.contains(views(sample@)[k]));
                let row = choose|row: int| 0 <= row < self@.len() && self@[row] == views(sample@)[k];
                assert(self.quotes@[row]@.populated());
            }
        }
        Ok(sample)
    }

    fn sample_by(&self, column: Column, value: &str, num: u8) -> (outcome: Result<
        Vec<Quote>,
        StoreError,
    >)
        ensures
            sampled(self@, by_column(column, value@), num as nat, outcome),
            outcome matches Ok(sample) && {
                &&& forall|k: int|
                    0 <= k < sample@.len() ==> (#[trigger] sample@[k])@.attribute(column) == value@
                &&& value@.len() == 0 ==> sample@.len() == 0
            },
    {
        let filter = Filter { column, value: value.to_owned() };
        let outcome = self.sample(Some(&filter), num);
        proof {
            use_type_invariant(self);
            let chosen = by_column(column, value@);
            assert(criterion(Some(&filter)) == chosen);
            if value@.len() == 0 {
                assert forall|row: int| !matching_rows(self@, chosen).contains(row) by {
                    if 0 <= row < self@.len() {
                        assert(self.quotes@[row]@.populated());
                    }
                }
                assert(matching_rows(self@, chosen) =~= Set::<int>::empty());
            }
        }
        outcome
    }

    /// A random sample of at most `num` quotes of the whole dataset.
    pub fn random(&self, num: u8) -> (outcome: Result<Vec<Quote>, StoreError>)
        ensures
            sampled(self@, None, num as nat, outcome),
    {
        self.sample(None, num)
    }

    /// A random sample of at most `num` quotes whose character is `value`.
    pub fn character(&self, value: &str, num: u8) -> (outcome: Result<Vec<Quote>, StoreError>)
        ensures
            sampled(self@, by_column(Column::Character, value@), num as nat, outcome),
            outcome matches Ok(sample) && {
                &&& forall|k: int|
                    0 <= k < sample@.len() ==> (#[trigger] sample@[k])@.character == value@
                &&& value@.len() == 0 ==> sample@.len() == 0
            },
    {
        self.sample_by(Column::Character, value, num)
    }

    /// A random sample of at most `num` quotes whose nation is `value`.
    pub fn nation(&self, value: &str, num: u8) -> (outcome: Result<Vec<Quote>, StoreError>)
        ensures
            sampled(self@, by_column(Column::Nation, value@), num as nat, outcome),
            outcome matches Ok(sample) && {
                &&& forall|k: int|
                    0 <= k < sample@.len() ==> (#[trigger] sample@[k])@.nation == value@
                &&& value@.len() == 0 ==> sample@.len() == 0
            },
    {
        self.sample_by(Column::Nation, value, num)
    }

    /// A random sample of at most `num` quotes whose bending is `value`.
    pub fn bending(&self, value: &str, num: u8) -> (outcome: Result<Vec<Quote>, StoreError>)
        ensures
            sampled(self@, by_column(Column::Bending, value@), num as nat, outcome),
            outcome matches Ok(sample) && {
                &&& forall|k: int|
                    0 <= k < sample@.len() ==> (#[trigger] sample@[k])@.bending == value@
                &&& value@.len() == 0 ==> sample@.len() == 0
            },
    {
        self.sample_by(Column::Bending, value, num)
    }

    /// A random sample of at most `num` quotes whose episode is `value`.
    pub fn episode(&self, value: &str, num: u8) -> (outcome: Result<Vec<Quote>, StoreError>)
        ensures
            sampled(self@, by_column(Column::Episode, value@), num as nat, outcome),
            outcome matches Ok(sample) && {
                &&& forall|k: int|
                    0 <= k < sample@.len() ==> (#[trigger] sample@[k])@.episode == value@
                &&& value@.len() == 0 ==> sample@.len() == 0
            },
    {
        self.sample_by(Column::Episode, value, num)
    }

    /// A random sample of at most `num` quotes whose book is `value`.
    pub fn book(&self, value: &str, num: u8) -> (outcome: Result<Vec<Quote>, StoreError>)
        ensures
            sampled(self@, by_column(Column::Book, value@), num as nat, outcome),
            outcome matches Ok(sample) && {
                &&& forall|k: int|
                    0 <= k < sample@.len() ==> (#[trigger] sample@[k])@.book == value@
                &&& value@.len() == 0 ==> sample@.len() == 0
            },
    {
        self.sample_by(Column::Book, value, num)
    }

    /// The distinct values that `column` takes in the dataset, each once,
    /// in the order in which they first appear.
    pub fn get_all(&self, column: Column) -> (outcome: Result<Vec<String>, StoreError>)
        ensures
            listed(self@, column, outcome),
            outcome matches Ok(values) && forall|k: int|
                0 <= k < values@.len() ==> (#[trigger] values@[k])@.len() > 0,
    {
        let mut values: Vec<String> = Vec::new();
        let mut row: usize = 0;
        while row < self.quotes.len()
            invariant
                row <= self.quotes@.len(),
                texts(values@) == first_seen(column_of(self@, column).take(row as int)),
                forall|k: int| 0 <= k < values@.len() ==> (#[trigger] values@[k])@.len() > 0,
            decreases self.quotes@.len() - row,
        {
            let value = self.quotes[row].attribute(column);
            proof {
                use_type_invariant(self);
                let seen = column_of(self@, column).take(row as int);
                let next = column_of(self@, column).take(row as int + 1);
                assert(next.drop_last() =~= seen);
                assert(next.last() == value@);
                assert(self.quotes@[row as int]@.populated());
            }
            if !holds(&values, value) {
                let ghost before = texts(values@);
                values.push(value.clone());
                assert(texts(values@) =~= before.push(value@));
            }
            row += 1;
        }
        proof {
            assert(column_of(self@, column).take(row as int) =~= column_of(self@, column));
            lemma_first_seen_covers(column_of(self@, column));
            lemma_first_seen_distinct(column_of(self@, column));
        }
        Ok(values)
    }
}

/// Whether `values` holds a string equal to `value`.
fn holds(values: &Vec<String>, value: &String) -> (found: bool)
    ensures
        found == texts(values@).contains(value@),
{
    let mut k: usize = 0;
    while k < values.len()
        invariant
            k <= values@.len(),
            forall|j: int| 0 <= j < k ==> texts(values@)[j] != value@,
        decreases values@.len() - k,
    {
        if values[k] == *value {
            assert(texts(values@)[k as int] == value@);
            return true;
        }
        k += 1;
    }
    false
}

/// Whatever the keys, the sample they fix is a sample.
pub proof fn lemma_keyed_sample_is_sample(
    quotes: Seq<QuoteView>,
    filter: Option<FilterView>,
    num: nat,
    keys: Seq<u64>,
    sample: Seq<QuoteView>,
)
    requires
        is_keyed_sample(quotes, filter, num, keys, sample),
    ensures
        is_sample(quotes, filter, num, sample),
{
    let rows = choose|rows: Seq<int>| #[trigger]
        is_selection(verdicts(quotes, filter), keys, num, rows) && sample == quotes_at(
            quotes,
            rows,
        );
    lemma_selection_is_draw(verdicts(quotes, filter), keys, num, rows);
}

/// Given keys fix the sample: two samples under the same keys are the same
/// quotes in the same order.
pub proof fn lemma_keyed_sample_unique(
    quotes: Seq<QuoteView>,
    filter: Option<FilterView>,
    num: nat,
    keys: Seq<u64>,
    first: Seq<QuoteView>,
    second: Seq<QuoteView>,
)
    requires
        is_keyed_sample(quotes, filter, num, keys, first),
        is_keyed_sample(quotes, filter, num, keys, second),
    ensures
        first == second,
{
    let accepted = verdicts(quotes, filter);
    let rows = choose|rows: Seq<int>| #[trigger]
        is_selection(accepted, keys, num, rows) && first == quotes_at(quotes, rows);
    let other = choose|rows: Seq<int>| #[trigger]
        is_selection(accepted, keys, num, rows) && second == quotes_at(quotes, rows);
    lemma_selection_unique(accepted, keys, num, rows, other);
}

/// Listing the values of a column twice gives the same values in the same
/// order: a listing depends on the dataset and the column alone.
pub proof fn lemma_listing_repeatable(
    quotes: Seq<QuoteView>,
    column: Column,
    first: Result<Vec<String>, StoreError>,
    second: Result<Vec<String>, StoreError>,
)
    requires
        listed(quotes, column, first),
        listed(quotes, column, second),
    ensures
        first is Ok,
        second is Ok,
        texts(first->Ok_0@) == texts(second->Ok_0@),
{
}

/// Every quote of a sample passes the filter: where the query names an
/// attribute and a value, the quote has exactly that value for it.
pub proof fn lemma_sample_obeys_filter(
    quotes: Seq<QuoteView>,
    filter: Option<FilterView>,
    num: nat,
    sample: Seq<QuoteView>,
)
    requires
        is_sample(quotes, filter, num, sample),
    ensures
        forall|k: int| 0 <= k < sample.len() ==> accepts(filter, #[trigger] sample[k]),
        filter matches Some(filter) ==> forall|k: int|
            0 <= k < sample.len() ==> (#[trigger] sample[k]).attribute(filter.column)
                == filter.value,
{
    let rows = choose|rows: Seq<int>| #[trigger]
        is_draw(verdicts(quotes, filter), num, rows) && sample == quotes_at(quotes, rows);
    assert forall|k: int| 0 <= k < sample.len() implies accepts(filter, #[trigger] sample[k]) by {
        assert(eligible(verdicts(quotes, filter)).contains(rows[k]));
    }
}

/// A sample holds no more quotes than were asked for and no more than match.
pub proof fn lemma_sample_bounded(
    quotes: Seq<QuoteView>,
    filter: Option<FilterView>,
    num: nat,
    sample: Seq<QuoteView>,
)
    requires
        is_sample(quotes, filter, num, sample),
    ensures
        sample.len() <= num,
        sample.len() <= matching_rows(quotes, filter).len(),
        matching_rows(quotes, filter).len() <= quotes.len(),
        sample.len() == num || sample.len() == matching_rows(quotes, filter).len(),
{
    lemma_eligible_finite(verdicts(quotes, filter));
}

/// Every quote of a sample is a quote of the dataset.
pub proof fn lemma_sample_from_dataset(
    quotes: Seq<QuoteView>,
    filter: Option<FilterView>,
    num: nat,
    sample: Seq<QuoteView>,
)
    requires
        is_sample(quotes, filter, num, sample),
    ensures
        forall|k: int| 0 <= k < sample.len() ==> quotes.contains(#[trigger] sample[k]),
{
    let rows = choose|rows: Seq<int>| #[trigger]
        is_draw(verdicts(quotes, filter), num, rows) && sample == quotes_at(quotes, rows);
    assert forall|k: int| 0 <= k < sample.len() implies quotes.contains(#[trigger] sample[k]) by {
        assert(eligible(verdicts(quotes, filter)).contains(rows[k]));
        assert(quotes[rows[k]] == sample[k]);
    }
}

/// A sample takes no row of the dataset twice, so where the dataset holds
/// no quote twice, neither does the sample.
pub proof fn lemma_sample_without_repeats(
    quotes: Seq<QuoteView>,
    filter: Option<FilterView>,
    num: nat,
    sample: Seq<QuoteView>,
)
    requires
        is_sample(quotes, filter, num, sample),
        quotes.no_duplicates(),
    ensures
        sample.no_duplicates(),
{
    let rows = choose|rows: Seq<int>| #[trigger]
        is_draw(verdicts(quotes, filter), num, rows) && sample == quotes_at(quotes, rows);
    assert forall|a: int, b: int| 0 <= a < sample.len() && 0 <= b < sample.len() && a
        != b implies sample[a] != sample[b] by {
        assert(eligible(verdicts(quotes, filter)).contains(rows[a]));
        assert(eligible(verdicts(quotes, filter)).contains(rows[b]));
        assert(rows[a] != rows[b]);
    }
}

} // verus!
