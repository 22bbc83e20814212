//! The stem table: for each term, its stem in the Digital Pāli Dictionary (when known) and
//! its algorithmic stem; stored as CSV with the columns `term`, `dpd_stem`, `snowball_stem`.
use crate::snowball::algorithms::pali::stem_of;
use crate::snowball::pali_stem;
use crate::token::Tokenizer;
use crate::vocabulary::Vocabulary;
use vstd::prelude::*;
use vstd::std_specs::cmp::PartialEqSpecImpl;

verus! {

#[verifier::external_type_specification]
#[verifier::external_body]
pub struct ExCsvError(csv::Error);

/// The header and the rows, as text fields, that the `csv` crate reads from `data`, or
/// `None` when it reports an error.
pub uninterp spec fn csv_table(data: Seq<char>) -> Option<(Seq<Seq<char>>, Seq<Seq<Seq<char>>>)>;

/// The views of a list of strings.
pub open spec fn field_views(fields: Seq<String>) -> Seq<Seq<char>> {
    fields.map_values(|f: String| f@)
}

/// The views of a list of rows.
pub open spec fn row_views(rows: Seq<Vec<String>>) -> Seq<Seq<Seq<char>>> {
    rows.map_values(|r: Vec<String>| field_views(r@))
}

/// Reads CSV data with the `csv` crate's default reader: the first record is the header,
/// every later record is a row.
///
/// Trusted: calls `csv::Reader::from_reader`, `headers` and `records`, and converts each
/// `StringRecord` to a vector of strings. The contract names what the crate reads
/// (`csv_table`), and states what the crate's source shows of its default (non-flexible)
/// reader: every row has as many fields as the header, and empty data gives an empty header
/// and no rows.
#[verifier::external_body]
pub(crate) fn read_csv(data: &str) -> (r: Result<(Vec<String>, Vec<Vec<String>>), csv::Error>)
    ensures
        match r {
            Ok((header, rows)) => {
                &&& csv_table(data@) == Some((field_views(header@), row_views(rows@)))
                &&& forall|i: int| 0 <= i < rows@.len() ==> (#[trigger] rows@[i])@.len() == header@.len()
            },
            Err(_) => csv_table(data@) is None,
        },
        r is Ok || data@.len() != 0,
        r is Ok ==> (data@.len() == 0 ==> r->Ok_0.0@.len() == 0 && r->Ok_0.1@.len() == 0),
{
    let mut reader = csv::Reader::from_reader(data.as_bytes());
    let header: Vec<String> = reader.headers()?.iter().map(String::from).collect();
    let mut rows: Vec<Vec<String>> = Vec::new();
    for record in reader.records() {
        rows.push(record?.iter().map(String::from).collect());
    }
    Ok((header, rows))
}

/// The CSV text that the `csv` crate's default writer makes of `header` and then `rows`.
pub uninterp spec fn csv_text(header: Seq<Seq<char>>, rows: Seq<Seq<Seq<char>>>) -> Seq<char>;

/// Writes CSV with the `csv` crate's default writer: the header record, then each row.
///
/// Trusted: calls `csv::Writer::from_writer` on a `Vec<u8>`, `write_record` for the header
/// and for each row, `into_inner`, and `String::from_utf8`. The contract names the text
/// (`csv_text`) and states what the crate's source shows of its default writer and reader:
/// the writer quotes every field that holds a delimiter, a quote or a line break, and a
/// record's only field when it is empty, so the default reader gives the header and the
/// rows back. That needs a non-empty header whose first field does not begin with a
/// byte-order mark (the reader drops one there), and rows as long as the header (the writer
/// refuses others; writing into a vector fails in no other way).
#[verifier::external_body]
pub(crate) fn write_csv(header: &Vec<String>, rows: &Vec<Vec<String>>) -> (out: String)
    requires
        header@.len() > 0,
        header@[0]@.len() == 0 || header@[0]@[0] != '\u{feff}',
        forall|i: int| 0 <= i < rows@.len() ==> (#[trigger] rows@[i])@.len() == header@.len(),
    ensures
        out@ == csv_text(field_views(header@), row_views(rows@)),
        csv_table(out@) == Some((field_views(header@), row_views(rows@))),
{
    let mut writer = csv::Writer::from_writer(Vec::new());
    writer.write_record(header).unwrap();
    for row in rows {
        writer.write_record(row).unwrap();
    }
    String::from_utf8(writer.into_inner().unwrap()).unwrap()
}

/// The message of a `csv` error.
///
/// Trusted: calls `ToString::to_string` on the error; nothing is stated of the text.
#[verifier::external_body]
pub(crate) fn csv_error_message(e: &csv::Error) -> String {
    e.to_string()
}

/// Why stem data could not be read.
pub enum TableError {
    /// The CSV data itself is malformed; the message of the `csv` crate.
    Csv(String),
    /// A required column is missing from the header.
    MissingColumn(String),
    /// A column occurs more than once in the header.
    DuplicateColumn(String),
}

/// The number of header fields equal to `name`.
pub open spec fn column_count(header: Seq<Seq<char>>, name: Seq<char>) -> nat
    decreases header.len(),
{
    if header.len() == 0 {
        0
    } else {
        column_count(header.drop_last(), name) + if header.last() == name {
            1nat
        } else {
            0nat
        }
    }
}

/// The index of the header field equal to `name`, when there is exactly one.
pub open spec fn is_column(header: Seq<Seq<char>>, name: Seq<char>, i: int) -> bool {
    0 <= i < header.len() && header[i] == name && column_count(header, name) == 1
}

/// The optional value of a field: an empty field is no value.
pub open spec fn optional_field(field: Seq<char>) -> Option<Seq<char>> {
    if field.len() == 0 {
        None
    } else {
        Some(field)
    }
}

/// A record of the stem table.
#[derive(Clone, Debug, PartialOrd)]
pub struct TermStem {
    pub term: String,
    pub dpd_stem: Option<String>,
    pub snowball_stem: String,
}

/// The abstract value of a record.
pub struct TermStemView {
    pub term: Seq<char>,
    pub dpd_stem: Option<Seq<char>>,
    pub snowball_stem: Seq<char>,
}

/// The view of an optional string.
pub open spec fn option_view(o: Option<String>) -> Option<Seq<char>> {
    match o {
        Some(s) => Some(s@),
        None => None,
    }
}

impl PartialEq for TermStem {
    fn eq(&self, other: &TermStem) -> (r: bool) {
        let same_dpd = match (&self.dpd_stem, &other.dpd_stem) {
            (Some(a), Some(b)) => *a == *b,
            (None, None) => true,
            _ => false,
        };
        proof {
            assert(same_dpd == (option_view(self.dpd_stem) == option_view(other.dpd_stem)));
        }
        let same_term = self.term == other.term;
        let same_snowball = self.snowball_stem == other.snowball_stem;
        same_term && same_dpd && same_snowball
    }
}

impl PartialEqSpecImpl for TermStem {
    open spec fn obeys_eq_spec() -> bool {
        true
    }

    open spec fn eq_spec(&self, other: &TermStem) -> bool {
        self@ == other@
    }
}

impl View for TermStem {
    type V = TermStemView;

    open spec fn view(&self) -> TermStemView {
        TermStemView {
            term: self.term@,
            dpd_stem: option_view(self.dpd_stem),
            snowball_stem: self.snowball_stem@,
        }
    }
}

/// The record that a row gives, with the columns at `t`, `d` (if any) and `s`.
pub open spec fn record_of(row: Seq<Seq<char>>, t: int, d: Option<int>, s: int) -> TermStemView {
    TermStemView {
        term: row[t],
        dpd_stem: match d {
            Some(d) => optional_field(row[d]),
            None => None,
        },
        snowball_stem: row[s],
    }
}

/// The record of a term whose dictionary stem is `dpd_stem`: the algorithmic stem is
/// computed from the term.
pub open spec fn term_record(term: Seq<char>, dpd_stem: Option<Seq<char>>) -> TermStemView {
    TermStemView { term, dpd_stem, snowball_stem: stem_of(term) }
}

/// A record made for a term keeps the term and its dictionary stem, and its algorithmic
/// stem is the term cut once by the stemmer: the term is that stem followed by the cut
/// part, which is empty or the longest of the stemmer's 25 endings that the term ends with.
pub proof fn lemma_term_record_stem(term: Seq<char>, dpd_stem: Option<Seq<char>>)
    ensures
        ({
            let r = term_record(term, dpd_stem);
            let endings: Seq<Seq<char>> = seq![
                seq!['a'],
                seq!['m', 'ā', 'n', 'a'],
                seq!['i', 's', 's', 'a'],
                seq!['a', 'n', 't', 'a'],
                seq!['e', 'n', 't', 'a'],
                seq!['o', 'n', 't', 'a'],
                seq!['u', 'n', 't', 'a'],
                seq!['i'],
                seq!['e', 's', 'i'],
                seq!['ā', 's', 'i'],
                seq!['a', 't', 'i'],
                seq!['e', 't', 'i'],
                seq!['ā', 't', 'i'],
                seq!['o'],
                seq!['a', 'n', 't'],
                seq!['u'],
                seq!['a', 'ṁ'],
                seq!['i', 'ṁ'],
                seq!['u', 'ṁ'],
                seq!['ā'],
                seq!['a', 'ṃ'],
                seq!['i', 'ṃ'],
                seq!['u', 'ṃ'],
                seq!['ī'],
                seq!['ū'],
            ];
            let cut = term.skip(r.snowball_stem.len() as int);
            &&& r.term == term
            &&& r.dpd_stem == dpd_stem
            &&& term == r.snowball_stem + cut
            &&& cut.len() == 0 || endings.contains(cut)
            &&& forall|e: Seq<char>|
                #[trigger] endings.contains(e) && e.len() <= term.len() && term.skip(term.len() - e.len()) == e
                    ==> e.len() <= cut.len()
        }),
{
    crate::snowball::lemma_stem_cuts_listed_ending(term);
}

/// Counting a name over a prefix of the header.
proof fn lemma_column_count_step(header: Seq<Seq<char>>, name: Seq<char>, i: int)
    requires
        0 <= i < header.len(),
    ensures
        column_count(header.take(i + 1), name) == column_count(header.take(i), name) + if header[i] == name {
            1nat
        } else {
            0nat
        },
{
    assert(header.take(i + 1).drop_last() =~= header.take(i));
}

/// Finds the single header field equal to `name`: `Ok(None)` when there is none, an error
/// when there are several.
pub(crate) fn unique_column(header: &Vec<String>, name: &str) -> (r: Result<Option<usize>, TableError>)
    ensures
        match r {
            Ok(Some(i)) => is_column(field_views(header@), name@, i as int),
            Ok(None) => column_count(field_views(header@), name@) == 0,
            Err(_) => column_count(field_views(header@), name@) > 1,
        },
{
    let ghost h = field_views(header@);
    let wanted = String::from_str(name);
    let mut found: Option<usize> = None;
    let mut i: usize = 0;
    proof {
        assert(h.take(0) =~= Seq::<Seq<char>>::empty());
    }
    while i < header.len()
        invariant
            0 <= i <= header@.len(),
            h == field_views(header@),
            h.len() == header@.len(),
            wanted@ == name@,
            match found {
                Some(f) => f < i && h[f as int] == name@ && column_count(h.take(i as int), name@) == 1,
                None => column_count(h.take(i as int), name@) == 0,
            },
        decreases header@.len() - i,
    {
        proof {
            lemma_column_count_step(h, name@, i as int);
        }
        if header[i] == wanted {
            if found.is_some() {
                proof {
                    lemma_column_count_prefix_le(h, name@, i as int + 1);
                }
                return Err(TableError::DuplicateColumn(wanted));
            }
            found = Some(i);
        }
        i = i + 1;
    }
    proof {
        assert(h.take(i as int) =~= h);
    }
    Ok(found)
}

/// The count over a prefix never exceeds the count over the whole.
proof fn lemma_column_count_prefix_le(header: Seq<Seq<char>>, name: Seq<char>, k: int)
    requires
        0 <= k <= header.len(),
    ensures
        column_count(header.take(k), name) <= column_count(header, name),
    decreases header.len() - k,
{
    if k < header.len() {
        lemma_column_count_step(header, name, k);
        lemma_column_count_prefix_le(header, name, k + 1);
    } else {
        assert(header.take(k) =~= header);
    }
}

/// Two distinct fields equal to `name` make the count at least two.
pub proof fn lemma_column_count_two(header: Seq<Seq<char>>, name: Seq<char>, i: int, j: int)
    requires
        0 <= i < j < header.len(),
        header[i] == name,
        header[j] == name,
    ensures
        column_count(header, name) >= 2,
    decreases header.len(),
{
    if j < header.len() - 1 {
        lemma_column_count_two(header.drop_last(), name, i, j);
    } else {
        lemma_column_count_prefix_le(header.drop_last(), name, i + 1);
        lemma_column_count_step(header.drop_last(), name, i);
        assert(header.drop_last().take(i + 1).len() == i + 1);
        lemma_column_count_nonneg_prefix(header.drop_last(), name, i);
    }
}

/// A count over a prefix is at least zero (so a hit makes it at least one).
proof fn lemma_column_count_nonneg_prefix(header: Seq<Seq<char>>, name: Seq<char>, i: int)
    requires
        0 <= i < header.len(),
    ensures
        column_count(header.take(i), name) >= 0,
{
}

/// The index of the only header field equal to `name`.
pub open spec fn column_of(header: Seq<Seq<char>>, name: Seq<char>) -> int {
    choose|i: int| is_column(header, name, i)
}

/// A column that occurs once is found by `column_of`.
pub proof fn lemma_column_of(header: Seq<Seq<char>>, name: Seq<char>, i: int)
    requires
        is_column(header, name, i),
    ensures
        column_of(header, name) == i,
{
    let k = column_of(header, name);
    if k != i {
        if k < i {
            lemma_column_count_two(header, name, k, i);
        } else {
            lemma_column_count_two(header, name, i, k);
        }
    }
}

/// The column names of the stem table.
pub open spec fn term_name() -> Seq<char> {
    seq!['t', 'e', 'r', 'm']
}

pub open spec fn dpd_stem_name() -> Seq<char> {
    seq!['d', 'p', 'd', '_', 's', 't', 'e', 'm']
}

pub open spec fn snowball_stem_name() -> Seq<char> {
    seq!['s', 'n', 'o', 'w', 'b', 'a', 'l', 'l', '_', 's', 't', 'e', 'm']
}

/// The dictionary-stem column, if the header has it.
pub open spec fn optional_column(header: Seq<Seq<char>>, name: Seq<char>) -> Option<int> {
    if column_count(header, name) == 0 {
        None
    } else {
        Some(column_of(header, name))
    }
}

/// The error, if any, that the columns of `header` give for rows of the stem table, checked
/// in the order `term`, `dpd_stem`, `snowball_stem`: a missing required column or a column
/// that occurs twice.
pub open spec fn stem_header_error(header: Seq<Seq<char>>, needs_snowball: bool) -> Option<TableErrorView> {
    if column_count(header, term_name()) == 0 {
        Some(TableErrorView::MissingColumn(term_name()))
    } else if column_count(header, term_name()) > 1 {
        Some(TableErrorView::DuplicateColumn(term_name()))
    } else if column_count(header, dpd_stem_name()) > 1 {
        Some(TableErrorView::DuplicateColumn(dpd_stem_name()))
    } else if needs_snowball && column_count(header, snowball_stem_name()) == 0 {
        Some(TableErrorView::MissingColumn(snowball_stem_name()))
    } else if needs_snowball && column_count(header, snowball_stem_name()) > 1 {
        Some(TableErrorView::DuplicateColumn(snowball_stem_name()))
    } else {
        None
    }
}

/// The abstract value of a `TableError`.
pub enum TableErrorView {
    Csv,
    MissingColumn(Seq<char>),
    DuplicateColumn(Seq<char>),
}

impl View for TableError {
    type V = TableErrorView;

    open spec fn view(&self) -> TableErrorView {
        match self {
            TableError::Csv(_) => TableErrorView::Csv,
            TableError::MissingColumn(n) => TableErrorView::MissingColumn(n@),
            TableError::DuplicateColumn(n) => TableErrorView::DuplicateColumn(n@),
        }
    }
}

/// The records of the rows of a stem table with a header free of errors.
pub open spec fn stem_records(header: Seq<Seq<char>>, rows: Seq<Seq<Seq<char>>>) -> Seq<TermStemView> {
    rows.map_values(
        |row: Seq<Seq<char>>|
            record_of(
                row,
                column_of(header, term_name()),
                optional_column(header, dpd_stem_name()),
                column_of(header, snowball_stem_name()),
            ),
    )
}

/// What the rows of a stem table, under `header`, give: the records, or the error. Without
/// rows the header is not inspected.
pub open spec fn stem_rows_result(header: Seq<Seq<char>>, rows: Seq<Seq<Seq<char>>>) -> Result<Seq<TermStemView>, TableErrorView> {
    if rows.len() == 0 {
        Ok(Seq::empty())
    } else {
        match stem_header_error(header, true) {
            Some(e) => Err(e),
            None => Ok(stem_records(header, rows)),
        }
    }
}

/// What reading a stem table from CSV data gives: the records, or the error.
pub open spec fn stem_table_result(data: Seq<char>) -> Result<Seq<TermStemView>, TableErrorView> {
    match csv_table(data) {
        None => Err(TableErrorView::Csv),
        Some((header, rows)) => stem_rows_result(header, rows),
    }
}

/// Finds the required column `name`, or says why it is missing or ambiguous.
pub(crate) fn required_column(header: &Vec<String>, name: &str) -> (r: Result<usize, TableError>)
    ensures
        match r {
            Ok(i) => is_column(field_views(header@), name@, i as int),
            Err(e) => (column_count(field_views(header@), name@) == 0 && e@ == TableErrorView::MissingColumn(name@))
                || (column_count(field_views(header@), name@) > 1 && e@ == TableErrorView::DuplicateColumn(name@)),
        },
{
    match unique_column(header, name) {
        Ok(Some(i)) => Ok(i),
        Ok(None) => Err(TableError::MissingColumn(String::from_str(name))),
        Err(e) => Err(TableError::DuplicateColumn(String::from_str(name))),
    }
}

/// The header of a stem file that the library writes.
pub open spec fn stem_header() -> Seq<Seq<char>> {
    seq![term_name(), dpd_stem_name(), snowball_stem_name()]
}

/// The fields of a record in a stem file: a missing dictionary stem is an empty field.
pub open spec fn record_row(r: TermStemView) -> Seq<Seq<char>> {
    seq![
        r.term,
        match r.dpd_stem {
            Some(s) => s,
            None => Seq::empty(),
        },
        r.snowball_stem,
    ]
}

/// Each column of the written header occurs once, in the order `term`, `dpd_stem`,
/// `snowball_stem`.
proof fn lemma_stem_header_columns()
    ensures
        stem_header_error(stem_header(), true) is None,
        column_of(stem_header(), term_name()) == 0,
        optional_column(stem_header(), dpd_stem_name()) == Some(1int),
        column_of(stem_header(), snowball_stem_name()) == 2,
{
    let h = stem_header();
    reveal_with_fuel(column_count, 4);
    assert(term_name() != dpd_stem_name());
    assert(term_name() != snowball_stem_name());
    assert(dpd_stem_name() != snowball_stem_name());
    assert(h.drop_last().drop_last().drop_last() =~= Seq::<Seq<char>>::empty());
    assert(h.drop_last().drop_last() =~= seq![term_name()]);
    assert(h.drop_last() =~= seq![term_name(), dpd_stem_name()]);
    assert(column_count(h, term_name()) == 1);
    assert(column_count(h, dpd_stem_name()) == 1);
    assert(column_count(h, snowball_stem_name()) == 1);
    lemma_column_of(h, term_name(), 0);
    lemma_column_of(h, dpd_stem_name(), 1);
    lemma_column_of(h, snowball_stem_name(), 2);
}

/// The stem table: one record per term.
#[derive(Clone)]
pub struct StemTable {
    records: Vec<TermStem>,
}

impl StemTable {
    /// The records, in order.
    pub closed spec fn record_views(&self) -> Seq<TermStemView> {
        self.records@.map_values(|r: TermStem| r@)
    }

    /// The records, in order.
    pub fn records(&self) -> (r: &Vec<TermStem>)
        ensures
            r@.map_values(|t: TermStem| t@) == self.record_views(),
    {
        &self.records
    }

    /// The table of the vocabulary's terms, in order, each with its dictionary stem from
    /// `dpd_stems` (at the same index) and its algorithmic stem.
    pub fn new<T: Tokenizer>(vocabulary: Vocabulary<T>, dpd_stems: Vec<Option<String>>) -> (table: StemTable)
        requires
            dpd_stems@.len() == vocabulary.terms_view().len(),
        ensures
            table.record_views() == Seq::new(
                vocabulary.terms_view().len(),
                |i: int| term_record(vocabulary.terms_view()[i], option_view(dpd_stems@[i])),
            ),
            table.record_views().len() == vocabulary.terms_view().len(),
            forall|i: int|
                0 <= i < table.record_views().len() ==> {
                    let r = #[trigger] table.record_views()[i];
                    &&& r.term == vocabulary.terms_view()[i]
                    &&& r.dpd_stem == option_view(dpd_stems@[i])
                    &&& r.snowball_stem == stem_of(vocabulary.terms_view()[i])
                },
    {
        let terms = vocabulary.terms();
        let mut records: Vec<TermStem> = Vec::new();
        let mut i: usize = 0;
        while i < terms.len()
            invariant
                0 <= i <= terms@.len(),
                terms@.map_values(|s: String| s@) == vocabulary.terms_view(),
                dpd_stems@.len() == terms@.len(),
                records@.len() == i,
                forall|k: int| 0 <= k < i ==> #[trigger] records@[k]@ == term_record(terms@[k]@, option_view(dpd_stems@[k])),
            decreases terms@.len() - i,
        {
            let term = terms[i].clone();
            let snowball_stem = pali_stem(term.as_str());
            let dpd_stem = match &dpd_stems[i] {
                Some(s) => Some(s.clone()),
                None => None,
            };
            records.push(TermStem { term, dpd_stem, snowball_stem });
            i = i + 1;
        }
        let table = StemTable { records };
        proof {
            assert(table.record_views() =~= Seq::new(
                vocabulary.terms_view().len(),
                |i: int| term_record(vocabulary.terms_view()[i], option_view(dpd_stems@[i])),
            ));
        }
        table
    }

    /// The dictionary stem of a term from the stems that the dictionary lists for it: the
    /// first one, or none when the lookup failed or found nothing.
    pub fn dpd_stem(stems: Option<Vec<String>>) -> (r: Option<String>)
        ensures
            match stems {
                Some(v) if v@.len() > 0 => r is Some && r->Some_0@ == v@[0]@,
                _ => r is None,
            },
    {
        match stems {
            Some(v) => if v.len() > 0 {
                Some(v[0].clone())
            } else {
                None
            },
            None => None,
        }
    }

    /// The table as CSV text: the header `term,dpd_stem,snowball_stem`, then one row per
    /// record, a missing dictionary stem as an empty field; a table without records gives
    /// no text at all (which `try_from` reads back as an empty table). Read back with
    /// `try_from`, it gives the same records, unless a dictionary stem is empty (which reads
    /// back as none).
    pub fn to_csv(&self) -> (out: String)
        ensures
            self.record_views().len() == 0 ==> out@ == Seq::<char>::empty(),
            self.record_views().len() > 0 ==> out@ == csv_text(stem_header(), self.record_views().map_values(
                |r: TermStemView| record_row(r),
            )),
            self.record_views().len() > 0 && (forall|i: int|
                0 <= i < self.record_views().len() ==> (#[trigger] self.record_views()[i]).dpd_stem != Some(
                    Seq::<char>::empty(),
                )) ==> stem_table_result(out@) == Ok::<Seq<TermStemView>, TableErrorView>(self.record_views()),
    {
        if self.records.len() == 0 {
            return String::new();
        }
        let header = vec![String::from_str("term"), String::from_str("dpd_stem"), String::from_str("snowball_stem")];
        let ghost records = self.record_views();
        let mut rows: Vec<Vec<String>> = Vec::new();
        let mut i: usize = 0;
        while i < self.records.len()
            invariant
                0 <= i <= self.records@.len(),
                records == self.record_views(),
                rows@.len() == i,
                forall|k: int| 0 <= k < i ==> (#[trigger] rows@[k])@.len() == 3 && field_views(rows@[k]@) == record_row(records[k]),
            decreases self.records@.len() - i,
        {
            let r = &self.records[i];
            let dpd = match &r.dpd_stem {
                Some(s) => s.clone(),
                None => String::new(),
            };
            let row = vec![r.term.clone(), dpd, r.snowball_stem.clone()];
            proof {
                assert(records[i as int] == self.records@[i as int]@);
                assert(field_views(row@) =~= record_row(records[i as int]));
            }
            rows.push(row);
            i = i + 1;
        }
        proof {
            reveal_strlit("term");
            reveal_strlit("dpd_stem");
            reveal_strlit("snowball_stem");
            assert("term"@ =~= term_name());
            assert("dpd_stem"@ =~= dpd_stem_name());
            assert("snowball_stem"@ =~= snowball_stem_name());
            assert(field_views(header@) =~= stem_header());
            assert(row_views(rows@) =~= records.map_values(|r: TermStemView| record_row(r)));
        }
        let out = write_csv(&header, &rows);
        proof {
            lemma_stem_header_columns();
            let h = stem_header();
            let rs = records.map_values(|r: TermStemView| record_row(r));
            if forall|i: int| 0 <= i < records.len() ==> (#[trigger] records[i]).dpd_stem != Some(Seq::<char>::empty()) {
                assert forall|i: int| 0 <= i < records.len() implies #[trigger] stem_records(h, rs)[i] == records[i] by {
                    let r = records[i];
                    if let Some(d) = r.dpd_stem {
                        if d.len() == 0 {
                            assert(d =~= Seq::<char>::empty());
                        }
                    }
                    assert(rs[i] == record_row(r));
                }
                assert(stem_records(h, rs) =~= records);
            }
        }
        out
    }

    /// Reads a stem table from CSV data with a header; the columns are found by name.
    /// An empty `dpd_stem` field means that the dictionary has no stem for the term.
    pub fn try_from(data: &str) -> (r: Result<StemTable, TableError>)
        ensures
            match r {
                Ok(table) => stem_table_result(data@) == Ok::<Seq<TermStemView>, TableErrorView>(table.record_views()),
                Err(e) => stem_table_result(data@) == Err::<Seq<TermStemView>, TableErrorView>(e@),
            },
            data@.len() == 0 ==> (r matches Ok(table) && table.record_views().len() == 0),
    {
        match read_csv(data) {
            Ok((header, rows)) => Self::from_rows(&header, &rows),
            Err(e) => Err(TableError::Csv(csv_error_message(&e))),
        }
    }

    /// The stem table of CSV rows under `header`: the columns are found by name, and an empty
    /// `dpd_stem` field means that the dictionary has no stem for the term.
    pub fn from_rows(header: &Vec<String>, rows: &Vec<Vec<String>>) -> (r: Result<StemTable, TableError>)
        requires
            forall|i: int| 0 <= i < rows@.len() ==> (#[trigger] rows@[i])@.len() == header@.len(),
        ensures
            match r {
                Ok(table) => stem_rows_result(field_views(header@), row_views(rows@))
                    == Ok::<Seq<TermStemView>, TableErrorView>(table.record_views()),
                Err(e) => stem_rows_result(field_views(header@), row_views(rows@))
                    == Err::<Seq<TermStemView>, TableErrorView>(e@),
            },
    {
        let ghost h = field_views(header@);
        if rows.len() == 0 {
            let table = StemTable { records: Vec::new() };
            proof {
                assert(table.record_views() =~= Seq::<TermStemView>::empty());
            }
            return Ok(table);
        }
        let t = match required_column(header, "term") {
            Ok(t) => t,
            Err(e) => {
                proof {
                    reveal_strlit("term");
                    assert("term"@ =~= term_name());
                }
                return Err(e);
            },
        };
        let d = match unique_column(header, "dpd_stem") {
            Ok(d) => d,
            Err(e) => {
                proof {
                    reveal_strlit("dpd_stem");
                    assert("dpd_stem"@ =~= dpd_stem_name());
                    reveal_strlit("term");
                    assert("term"@ =~= term_name());
                }
                return Err(TableError::DuplicateColumn(String::from_str("dpd_stem")));
            },
        };
        let s = match required_column(header, "snowball_stem") {
            Ok(s) => s,
            Err(e) => {
                proof {
                    reveal_strlit("snowball_stem");
                    assert("snowball_stem"@ =~= snowball_stem_name());
                    reveal_strlit("term");
                    assert("term"@ =~= term_name());
                    reveal_strlit("dpd_stem");
                    assert("dpd_stem"@ =~= dpd_stem_name());
                }
                return Err(e);
            },
        };
        proof {
            reveal_strlit("term");
            assert("term"@ =~= term_name());
            reveal_strlit("dpd_stem");
            assert("dpd_stem"@ =~= dpd_stem_name());
            reveal_strlit("snowball_stem");
            assert("snowball_stem"@ =~= snowball_stem_name());
            lemma_column_of(h, term_name(), t as int);
            lemma_column_of(h, snowball_stem_name(), s as int);
            if let Some(d) = d {
                lemma_column_of(h, dpd_stem_name(), d as int);
            }
        }
        let ghost dcol: Option<int> = match d {
            Some(d) => Some(d as int),
            None => None,
        };
        let mut records: Vec<TermStem> = Vec::new();
        let mut i: usize = 0;
        while i < rows.len()
            invariant
                0 <= i <= rows@.len(),
                forall|k: int| 0 <= k < rows@.len() ==> (#[trigger] rows@[k])@.len() == header@.len(),
                t < header@.len(),
                s < header@.len(),
                d matches Some(dd) ==> dd < header@.len(),
                dcol == match d {
                    Some(dd) => Some(dd as int),
                    None => None::<int>,
                },
                records@.len() == i,
                forall|k: int| 0 <= k < i ==> #[trigger] records@[k]@ == record_of(
                    field_views(rows@[k]@),
                    t as int,
                    dcol,
                    s as int,
                ),
            decreases rows@.len() - i,
        {
            let row = &rows[i];
            let dpd_stem = match d {
                Some(d) => if row[d].as_str().is_empty() {
                    None
                } else {
                    Some(row[d].clone())
                },
                None => None,
            };
            let record = TermStem { term: row[t].clone(), dpd_stem, snowball_stem: row[s].clone() };
            proof {
                if let Some(dd) = d {
                    assert(row@[dd as int]@.len() == 0 <==> row[dd as int]@ =~= Seq::<char>::empty());
                }
            }
            records.push(record);
            i = i + 1;
        }
        let table = StemTable { records };
        proof {
            assert(table.record_views() =~= stem_records(h, row_views(rows@)));
        }
        Ok(table)
    }
}

} // verus!
