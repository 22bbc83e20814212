//! A token filter that replaces each token by its stem from a table of dictionary stems.
use crate::table::{
    column_count, column_of, csv_error_message, csv_table, dpd_stem_name, field_views, is_column,
    lemma_column_of, optional_column, optional_field, read_csv, required_column, row_views,
    stem_header_error, stem_records, stem_table_result, term_name, unique_column, StemTable, TableError,
    TableErrorView, TermStemView,
};
use crate::token::{Token, TokenStream, TokenView, Tokenizer};
use std::sync::Arc;
use vstd::hash_map::StringHashMap;
use vstd::prelude::*;

verus! {

/// The map from terms to stems that a list of `(term, stem)` pairs gives: pairs without a
/// stem are skipped, and a later pair for the same term wins.
pub open spec fn pairs_map(pairs: Seq<(Seq<char>, Option<Seq<char>>)>) -> Map<Seq<char>, Seq<char>>
    decreases pairs.len(),
{
    if pairs.len() == 0 {
        Map::empty()
    } else {
        let m = pairs_map(pairs.drop_last());
        match pairs.last().1 {
            Some(stem) => m.insert(pairs.last().0, stem),
            None => m,
        }
    }
}

/// The `(term, stem)` pair of a row with the term at column `t` and the stem, if any, at `d`.
pub open spec fn row_pair(row: Seq<Seq<char>>, t: int, d: Option<int>) -> (Seq<char>, Option<Seq<char>>) {
    (
        row[t],
        match d {
            Some(d) => optional_field(row[d]),
            None => None,
        },
    )
}

/// The `(term, stem)` pairs of the rows of a stem file with the given header.
pub open spec fn rows_pairs(header: Seq<Seq<char>>, rows: Seq<Seq<Seq<char>>>) -> Seq<(Seq<char>, Option<Seq<char>>)> {
    rows.map_values(
        |row: Seq<Seq<char>>|
            row_pair(row, column_of(header, term_name()), optional_column(header, dpd_stem_name())),
    )
}

/// The `(term, stem)` pairs of the records of a stem table.
pub open spec fn records_pairs(records: Seq<TermStemView>) -> Seq<(Seq<char>, Option<Seq<char>>)> {
    records.map_values(|r: TermStemView| (r.term, r.dpd_stem))
}

/// What the rows of a stem file, under `header`, give: the map from terms to stems, or the
/// error. Only the `term` column is required; without rows the header is not inspected.
pub open spec fn dictionary_rows_result(header: Seq<Seq<char>>, rows: Seq<Seq<Seq<char>>>) -> Result<Map<Seq<char>, Seq<char>>, TableErrorView> {
    if rows.len() == 0 {
        Ok(Map::empty())
    } else {
        match stem_header_error(header, false) {
            Some(e) => Err(e),
            None => Ok(pairs_map(rows_pairs(header, rows))),
        }
    }
}

/// What reading dictionary stems from CSV data gives: the map from terms to stems, or the
/// error.
pub open spec fn dictionary_result(data: Seq<char>) -> Result<Map<Seq<char>, Seq<char>>, TableErrorView> {
    match csv_table(data) {
        None => Err(TableErrorView::Csv),
        Some((header, rows)) => dictionary_rows_result(header, rows),
    }
}

/// A token whose text is replaced by its stem from `stems`, when there is one.
pub open spec fn dictionary_stem_token(stems: Map<Seq<char>, Seq<char>>, t: TokenView) -> TokenView {
    if stems.contains_key(t.text) {
        TokenView { text: stems[t.text], ..t }
    } else {
        t
    }
}

/// Another handle on the same stem map.
///
/// Trusted: calls `Arc::clone`, which std documents as making another pointer to the same
/// allocation.
#[verifier::external_body]
fn share(m: &Arc<StringHashMap<String>>) -> (out: Arc<StringHashMap<String>>)
    ensures
        out@ == m@,
{
    Arc::clone(m)
}

/// Token filter that replaces each token by its stem from a table of dictionary stems.
pub struct DictionaryStemmer {
    term_stems: Arc<StringHashMap<String>>,
}

/// Inserts the pairs `pairs[i]` that have a stem, in order.
fn insert_pairs(
    m: &mut StringHashMap<String>,
    terms: &Vec<String>,
    stems: &Vec<Option<String>>,
)
    requires
        terms@.len() == stems@.len(),
    ensures
        final(m)@.map_values(|s: String| s@) == old(m)@.map_values(|s: String| s@).union_prefer_right(
            pairs_map(pair_views(terms@, stems@)),
        ),
{
    let ghost start = m@.map_values(|s: String| s@);
    let ghost pairs = pair_views(terms@, stems@);
    let mut i: usize = 0;
    proof {
        assert(pairs.take(0) =~= Seq::<(Seq<char>, Option<Seq<char>>)>::empty());
        assert(start.union_prefer_right(Map::empty()) =~= start);
    }
    while i < terms.len()
        invariant
            0 <= i <= terms@.len(),
            terms@.len() == stems@.len(),
            pairs == pair_views(terms@, stems@),
            m@.map_values(|s: String| s@) == start.union_prefer_right(pairs_map(pairs.take(i as int))),
        decreases terms@.len() - i,
    {
        proof {
            assert(pairs.take(i as int + 1).drop_last() =~= pairs.take(i as int));
            assert(pairs.take(i as int + 1).last() == pairs[i as int]);
        }
        match &stems[i] {
            Some(stem) => {
                let ghost before = m@;
                m.insert(terms[i].clone(), stem.clone());
                proof {
                    assert(m@.map_values(|s: String| s@) =~= before.map_values(|s: String| s@).insert(
                        terms@[i as int]@,
                        stem@,
                    ));
                    assert(start.union_prefer_right(pairs_map(pairs.take(i as int + 1))) =~= start.union_prefer_right(
                        pairs_map(pairs.take(i as int)),
                    ).insert(terms@[i as int]@, stem@));
                }
            },
            None => {},
        }
        i = i + 1;
    }
    proof {
        assert(pairs.take(terms@.len() as int) =~= pairs);
    }
}

/// The pairs of parallel lists of terms and stems.
pub open spec fn pair_views(terms: Seq<String>, stems: Seq<Option<String>>) -> Seq<(Seq<char>, Option<Seq<char>>)> {
    Seq::new(
        terms.len(),
        |i: int|
            (
                terms[i]@,
                match stems[i] {
                    Some(s) => Some(s@),
                    None => None,
                },
            ),
    )
}

/// Reads the `(term, stem)` pairs of CSV rows under `header`, as parallel lists.
fn dictionary_pairs(header: &Vec<String>, rows: &Vec<Vec<String>>) -> (r: Result<(Vec<String>, Vec<Option<String>>), TableError>)
    requires
        forall|i: int| 0 <= i < rows@.len() ==> (#[trigger] rows@[i])@.len() == header@.len(),
    ensures
        match r {
            Ok((terms, stems)) => terms@.len() == stems@.len() && if rows@.len() == 0 {
                pair_views(terms@, stems@).len() == 0
            } else {
                stem_header_error(field_views(header@), false) is None
                    && pair_views(terms@, stems@) == rows_pairs(field_views(header@), row_views(rows@))
            },
            Err(e) => dictionary_rows_result(field_views(header@), row_views(rows@))
                == Err::<Map<Seq<char>, Seq<char>>, TableErrorView>(e@),
        },
{
    let ghost h = field_views(header@);
    let mut terms: Vec<String> = Vec::new();
    let mut stems: Vec<Option<String>> = Vec::new();
    if rows.len() == 0 {
        proof {
            assert(pair_views(terms@, stems@) =~= Seq::<(Seq<char>, Option<Seq<char>>)>::empty());
        }
        return Ok((terms, stems));
    }
    proof {
        reveal_strlit("term");
        assert("term"@ =~= term_name());
        reveal_strlit("dpd_stem");
        assert("dpd_stem"@ =~= dpd_stem_name());
    }
    let t = match required_column(header, "term") {
        Ok(t) => t,
        Err(e) => return Err(e),
    };
    let d = match unique_column(header, "dpd_stem") {
        Ok(d) => d,
        Err(e) => return Err(TableError::DuplicateColumn(String::from_str("dpd_stem"))),
    };
    proof {
        lemma_column_of(h, term_name(), t as int);
        if let Some(d) = d {
            lemma_column_of(h, dpd_stem_name(), d as int);
        }
    }
    let ghost dcol: Option<int> = match d {
        Some(d) => Some(d as int),
        None => None,
    };
    let ghost pairs = rows_pairs(h, row_views(rows@));
    let mut i: usize = 0;
    while i < rows.len()
        invariant
            0 <= i <= rows@.len(),
            forall|k: int| 0 <= k < rows@.len() ==> (#[trigger] rows@[k])@.len() == header@.len(),
            t < header@.len(),
            d matches Some(dd) ==> dd < header@.len(),
            dcol == match d {
                Some(dd) => Some(dd as int),
                None => None::<int>,
            },
            t == column_of(h, term_name()),
            dcol == optional_column(h, dpd_stem_name()),
            h == field_views(header@),
            pairs == rows_pairs(h, row_views(rows@)),
            terms@.len() == i,
            stems@.len() == i,
            pair_views(terms@, stems@) == pairs.take(i as int),
        decreases rows@.len() - i,
    {
        let row = &rows[i];
        let stem = match d {
            Some(d) => if row[d].as_str().is_empty() {
                None
            } else {
                Some(row[d].clone())
            },
            None => None,
        };
        terms.push(row[t].clone());
        stems.push(stem);
        proof {
            if let Some(dd) = d {
                assert(row@[dd as int]@.len() == 0 <==> row[dd as int]@ =~= Seq::<char>::empty());
            }
            assert(pair_views(terms@, stems@) =~= pairs.take(i as int + 1));
        }
        i = i + 1;
    }
    proof {
        assert(pairs.take(rows@.len() as int) =~= pairs);
    }
    Ok((terms, stems))
}

impl DictionaryStemmer {
    /// The map from terms to stems.
    pub closed spec fn stems(&self) -> Map<Seq<char>, Seq<char>> {
        self.term_stems@.map_values(|s: String| s@)
    }

    /// Builds the stemmer from parallel lists of terms and (optional) stems.
    fn from_pairs(terms: &Vec<String>, stems: &Vec<Option<String>>) -> (d: DictionaryStemmer)
        requires
            terms@.len() == stems@.len(),
        ensures
            d.stems() == pairs_map(pair_views(terms@, stems@)),
    {
        let mut m: StringHashMap<String> = StringHashMap::new();
        proof {
            assert(m@.map_values(|s: String| s@) =~= Map::<Seq<char>, Seq<char>>::empty());
        }
        insert_pairs(&mut m, terms, stems);
        proof {
            assert(Map::<Seq<char>, Seq<char>>::empty().union_prefer_right(pairs_map(pair_views(terms@, stems@)))
                =~= pairs_map(pair_views(terms@, stems@)));
        }
        DictionaryStemmer { term_stems: Arc::new(m) }
    }

    /// The stems of the records of a stem table that have a dictionary stem.
    pub fn from_table(table: &StemTable) -> (d: DictionaryStemmer)
        ensures
            d.stems() == pairs_map(records_pairs(table.record_views())),
    {
        let records = table.records();
        let mut terms: Vec<String> = Vec::new();
        let mut stems: Vec<Option<String>> = Vec::new();
        let mut i: usize = 0;
        while i < records.len()
            invariant
                0 <= i <= records@.len(),
                records@.map_values(|t: crate::table::TermStem| t@) == table.record_views(),
                terms@.len() == i,
                stems@.len() == i,
                pair_views(terms@, stems@) == records_pairs(table.record_views()).take(i as int),
            decreases records@.len() - i,
        {
            terms.push(records[i].term.clone());
            let stem = match &records[i].dpd_stem {
                Some(s) => Some(s.clone()),
                None => None,
            };
            stems.push(stem);
            proof {
                assert(pair_views(terms@, stems@) =~= records_pairs(table.record_views()).take(i as int + 1));
            }
            i = i + 1;
        }
        proof {
            assert(records_pairs(table.record_views()).take(records@.len() as int) =~= records_pairs(table.record_views()));
        }
        Self::from_pairs(&terms, &stems)
    }

    /// Reads the stems from CSV data with a header. The `term` column is required; a row
    /// whose `dpd_stem` field is empty, or a file without that column, gives no stem.
    pub fn try_from(data: &str) -> (r: Result<DictionaryStemmer, TableError>)
        ensures
            match r {
                Ok(d) => dictionary_result(data@) == Ok::<Map<Seq<char>, Seq<char>>, TableErrorView>(d.stems()),
                Err(e) => dictionary_result(data@) == Err::<Map<Seq<char>, Seq<char>>, TableErrorView>(e@),
            },
    {
        match read_csv(data) {
            Ok((header, rows)) => Self::from_rows(&header, &rows),
            Err(e) => Err(TableError::Csv(csv_error_message(&e))),
        }
    }

    /// The stems of CSV rows under `header`. The `term` column is required; a row whose
    /// `dpd_stem` field is empty, or rows without that column, give no stem.
    pub fn from_rows(header: &Vec<String>, rows: &Vec<Vec<String>>) -> (r: Result<DictionaryStemmer, TableError>)
        requires
            forall|i: int| 0 <= i < rows@.len() ==> (#[trigger] rows@[i])@.len() == header@.len(),
        ensures
            match r {
                Ok(d) => dictionary_rows_result(field_views(header@), row_views(rows@))
                    == Ok::<Map<Seq<char>, Seq<char>>, TableErrorView>(d.stems()),
                Err(e) => dictionary_rows_result(field_views(header@), row_views(rows@))
                    == Err::<Map<Seq<char>, Seq<char>>, TableErrorView>(e@),
            },
    {
        match dictionary_pairs(header, rows) {
            Ok((terms, stems)) => {
                let d = Self::from_pairs(&terms, &stems);
                proof {
                    if rows@.len() == 0 {
                        assert(pair_views(terms@, stems@) =~= Seq::<(Seq<char>, Option<Seq<char>>)>::empty());
                    }
                }
                Ok(d)
            },
            Err(e) => Err(e),
        }
    }

    /// The stem of `term`, if the table has one.
    pub fn get(&self, term: &str) -> (r: Option<String>)
        ensures
            match r {
                Some(s) => self.stems().contains_key(term@) && s@ == self.stems()[term@],
                None => !self.stems().contains_key(term@),
            },
    {
        match (*self.term_stems).get(term) {
            Some(s) => Some(s.clone()),
            None => None,
        }
    }

    /// Wraps `tokenizer` so that each token with a known stem comes out as that stem.
    pub fn transform<T: Tokenizer>(self, tokenizer: T) -> (f: StemmerFilter<T>)
        ensures
            forall|text: Seq<char>| #[trigger] f.stream_tokens(text)
                == tokenizer.stream_tokens(text).map_values(|t: TokenView| dictionary_stem_token(self.stems(), t)),
    {
        StemmerFilter { inner: tokenizer, term_stems: self.term_stems }
    }
}

impl Clone for DictionaryStemmer {
    fn clone(&self) -> (c: DictionaryStemmer)
        ensures
            c.stems() == self.stems(),
    {
        DictionaryStemmer { term_stems: share(&self.term_stems) }
    }
}

/// A tokenizer whose tokens come out as their dictionary stems.
pub struct StemmerFilter<T> {
    inner: T,
    term_stems: Arc<StringHashMap<String>>,
}

impl<T: Tokenizer> Tokenizer for StemmerFilter<T> {
    type Stream = StemmerTokenStream<T::Stream>;

    closed spec fn stream_tokens(&self, text: Seq<char>) -> Seq<TokenView> {
        self.inner.stream_tokens(text).map_values(
            |t: TokenView| dictionary_stem_token(self.term_stems@.map_values(|s: String| s@), t),
        )
    }

    fn token_stream(&self, text: &str) -> (stream: StemmerTokenStream<T::Stream>) {
        StemmerTokenStream {
            tail: self.inner.token_stream(text),
            term_stems: share(&self.term_stems),
            token: Token::default(),
        }
    }
}

/// The stream of a dictionary `StemmerFilter`: the tokens of its tail, with known terms
/// replaced by their stems.
pub struct StemmerTokenStream<S> {
    tail: S,
    term_stems: Arc<StringHashMap<String>>,
    token: Token,
}

impl<S: TokenStream> StemmerTokenStream<S> {
    /// Replaces the tokens of `tail` by their stems from `stemmer`.
    pub fn new(tail: S, stemmer: &DictionaryStemmer) -> (stream: StemmerTokenStream<S>)
        requires
            tail.wf(),
        ensures
            stream.wf(),
            stream.consumed() == tail.consumed(),
            stream.tokens() == tail.tokens().map_values(|t: TokenView| dictionary_stem_token(stemmer.stems(), t)),
    {
        StemmerTokenStream { tail, term_stems: share(&stemmer.term_stems), token: Token::default() }
    }
}

impl<S: TokenStream> TokenStream for StemmerTokenStream<S> {
    closed spec fn tokens(&self) -> Seq<TokenView> {
        self.tail.tokens().map_values(
            |t: TokenView| dictionary_stem_token(self.term_stems@.map_values(|s: String| s@), t),
        )
    }

    closed spec fn consumed(&self) -> nat {
        self.tail.consumed()
    }

    closed spec fn current(&self) -> TokenView {
        self.token@
    }

    closed spec fn wf(&self) -> bool {
        self.tail.wf()
    }

    fn advance(&mut self) -> (found: bool) {
        if !self.tail.advance() {
            return false;
        }
        let t = self.tail.token();
        let text = match (*self.term_stems).get(t.text.as_str()) {
            Some(stem) => stem.clone(),
            None => t.text.clone(),
        };
        self.token = Token {
            offset_from: t.offset_from,
            offset_to: t.offset_to,
            position: t.position,
            text,
            position_length: t.position_length,
        };
        true
    }

    fn token(&self) -> (t: &Token) {
        &self.token
    }
}

} // verus!

verus! {

/// Reading the stems straight from CSV data, or reading a stem table from it first, gives the
/// same stems whenever the stem table can be read.
pub proof fn lemma_table_and_direct_reading_agree(data: Seq<char>)
    requires
        stem_table_result(data) is Ok,
    ensures
        dictionary_result(data) == Ok::<Map<Seq<char>, Seq<char>>, TableErrorView>(
            pairs_map(records_pairs(stem_table_result(data)->Ok_0)),
        ),
{
    let (header, rows) = csv_table(data)->Some_0;
    if rows.len() == 0 {
        assert(records_pairs(Seq::<TermStemView>::empty()) =~= Seq::<(Seq<char>, Option<Seq<char>>)>::empty());
    } else {
        assert(rows_pairs(header, rows) =~= records_pairs(stem_records(header, rows)));
    }
}

} // verus!
