use crate::analyze_api::{Query, QueryView};
use crate::error::EngineError;
use crate::exec::basic::analyze::{concat, concat_fault, tables_view};
use crate::utils::record_batch_util::{convert, Table, TableView};
use crate::utils::sequences::{first_position, lemma_first_position};
use crate::utils::text::find_text;
use crate::web_file::streambuf::WebFileReader;
use vstd::prelude::*;

verus! {

/// The session: the table of the file that was loaded last, the answers to
/// the queries asked of it so far, each under the text of its query, and
/// the position of the host reader.
pub struct State {
    record_batches: Option<Table>,
    keys: Vec<String>,
    answers: Vec<Table>,
    web_file_reader: WebFileReader,
}

/// What a `State` stands for.
pub struct StateView {
    /// The table, once a file was loaded.
    pub table: Option<TableView>,
    /// The texts of the queries that have an answer stored.
    pub keys: Seq<Seq<char>>,
    /// The answers, each at the place of its query.
    pub answers: Seq<TableView>,
    /// Where the host reader stands.
    pub reader_offset: u64,
    /// The size of the file that the host reader reads.
    pub reader_length: u64,
}

impl StateView {
    /// Every query has one answer, no query is stored twice, and the table
    /// and the answers are well-formed.
    pub open spec fn wf(self) -> bool {
        &&& self.keys.len() == self.answers.len()
        &&& self.keys.no_duplicates()
        &&& forall|i: int| 0 <= i < self.answers.len() ==> (#[trigger] self.answers[i]).wf()
        &&& self.table matches Some(table) ==> table.wf()
    }

    /// The answer stored for `key`, if any.
    pub open spec fn cached(self, key: Seq<char>) -> Option<TableView> {
        let at = first_position(self.keys, key);
        if at < self.keys.len() {
            Some(self.answers[at])
        } else {
            None
        }
    }

    /// The session after `answer` was stored for `key`, in place of an
    /// earlier answer for the same key if there was one.
    pub open spec fn stored(self, key: Seq<char>, answer: TableView) -> StateView {
        let at = first_position(self.keys, key);
        if at < self.keys.len() {
            StateView { answers: self.answers.update(at, answer), ..self }
        } else {
            StateView { keys: self.keys.push(key), answers: self.answers.push(answer), ..self }
        }
    }

    /// The session without stored answers.
    pub open spec fn cleared(self) -> StateView {
        StateView { keys: Seq::empty(), answers: Seq::empty(), ..self }
    }

    /// The session after a file was loaded: its table, and no stored answers.
    pub open spec fn loaded(self, table: TableView) -> StateView {
        StateView { table: Some(table), ..self.cleared() }
    }

    /// What a query answers in this session: the stored answer where there
    /// is one for its text; else `InvalidParameter` where no file was
    /// loaded; else what the query gives on the table.
    pub open spec fn answer(self, key: Seq<char>, query: QueryView) -> Result<
        TableView,
        EngineError,
    > {
        match self.cached(key) {
            Some(answer) => Ok(answer),
            None => match self.table {
                None => Err(EngineError::InvalidParameter),
                Some(table) => query.answer(table),
            },
        }
    }

    /// The session after a query: a new answer is stored under the text of
    /// the query; a stored answer or an error changes nothing.
    pub open spec fn asked(self, key: Seq<char>, query: QueryView) -> StateView {
        match (self.cached(key), self.answer(key, query)) {
            (None, Ok(answer)) => self.stored(key, answer),
            _ => self,
        }
    }
}

/// What a list of strings stands for.
pub open spec fn keys_view(keys: Seq<String>) -> Seq<Seq<char>> {
    Seq::new(keys.len(), |i: int| keys[i]@)
}

impl View for State {
    type V = StateView;

    closed spec fn view(&self) -> StateView {
        StateView {
            table: match self.record_batches {
                Some(table) => Some(table@),
                None => None,
            },
            keys: keys_view(self.keys@),
            answers: tables_view(self.answers@),
            reader_offset: self.web_file_reader.offset,
            reader_length: self.web_file_reader.length,
        }
    }
}

impl State {
    /// Whether the session is well-formed.
    pub open spec fn wf(&self) -> bool {
        self@.wf()
    }

    /// A session without a table and without answers, its host reader at
    /// the start of an empty file.
    pub fn new() -> (state: State)
        ensures
            state.wf(),
            state@ == (StateView {
                table: None,
                keys: Seq::empty(),
                answers: Seq::empty(),
                reader_offset: 0,
                reader_length: 0,
            }),
    {
        let state = State {
            record_batches: None,
            keys: Vec::new(),
            answers: Vec::new(),
            web_file_reader: WebFileReader::new_from_file(0, 0),
        };
        proof {
            assert(state@.keys =~= Seq::empty());
            assert(state@.answers =~= Seq::empty());
        }
        state
    }

    /// A copy of the table, if a file was loaded.
    pub fn get_record_batches(&self) -> (table: Option<Table>)
        requires
            self.wf(),
        ensures
            match table {
                Some(t) => t.wf() && self@.table == Some(t@),
                None => self@.table is None,
            },
    {
        match &self.record_batches {
            Some(table) => Some(table.copy()),
            None => None,
        }
    }

    /// A copy of the answer stored for `key`, if there is one.
    pub fn get_query_from_cache(&self, key: &String) -> (answer: Option<Table>)
        requires
            self.wf(),
        ensures
            match answer {
                Some(t) => t.wf() && self@.cached(key@) == Some(t@),
                None => self@.cached(key@) is None,
            },
    {
        let at = find_text(&self.keys, key);
        assert(keys_view(self.keys@) =~= crate::utils::sequences::texts(self.keys@));
        if at < self.keys.len() {
            assert(self@.answers[at as int] == self.answers@[at as int]@);
            Some(self.answers[at].copy())
        } else {
            None
        }
    }

    /// The host reader.
    pub fn get_webfile_reader(&self) -> (reader: WebFileReader)
        ensures
            reader.offset == self@.reader_offset,
            reader.length == self@.reader_length,
    {
        WebFileReader { offset: self.web_file_reader.offset, length: self.web_file_reader.length }
    }

    /// Replaces the host reader.
    pub fn set_webfile_reader(&mut self, reader: WebFileReader)
        ensures
            final(self)@ == (StateView {
                reader_offset: reader.offset,
                reader_length: reader.length,
                ..old(self)@
            }),
    {
        self.web_file_reader = reader;
    }

    /// Forgets every stored answer.
    pub fn clear_cache(&mut self)
        ensures
            final(self)@ == old(self)@.cleared(),
    {
        self.keys = Vec::new();
        self.answers = Vec::new();
        proof {
            assert(self@.keys =~= Seq::empty());
            assert(self@.answers =~= Seq::empty());
        }
    }

    /// Stores `record_batch` as the answer to the query `restful_string`,
    /// in place of an earlier answer to it.
    pub fn insert_query_to_cache(&mut self, restful_string: &String, record_batch: Table)
        requires
            old(self).wf(),
            record_batch.wf(),
        ensures
            final(self).wf(),
            final(self)@ == old(self)@.stored(restful_string@, record_batch@),
            final(self)@.cached(restful_string@) == Some(record_batch@),
            forall|other: Seq<char>|
                other != restful_string@ ==> final(self)@.cached(other) == old(self)@.cached(other),
    {
        let ghost before = self@;
        let at = find_text(&self.keys, restful_string);
        proof {
            assert(keys_view(self.keys@) =~= crate::utils::sequences::texts(self.keys@));
            lemma_stored(before, restful_string@, record_batch@);
        }
        if at < self.keys.len() {
            self.answers.set(at, record_batch);
            proof {
                assert(self@.answers =~= before.answers.update(at as int, record_batch@));
            }
        } else {
            self.keys.push(restful_string.clone());
            self.answers.push(record_batch);
            proof {
                assert(self@.keys =~= before.keys.push(restful_string@));
                assert(self@.answers =~= before.answers.push(record_batch@));
            }
        }
    }

    /// The answer stored for `key` where there is one; else the table that
    /// `compute_fn` computes, which is then stored for `key`. `compute_fn`
    /// is called only where nothing is stored for the key.
    pub fn get_or_compute<F: FnOnce() -> Table>(&mut self, key: &String, compute_fn: F) -> (table:
        Table)
        requires
            old(self).wf(),
            old(self)@.cached(key@) is None ==> call_requires(compute_fn, ()),
            forall|made: Table| call_ensures(compute_fn, (), made) ==> made.wf(),
        ensures
            final(self).wf(),
            table.wf(),
            match old(self)@.cached(key@) {
                Some(answer) => table@ == answer && final(self)@ == old(self)@,
                None => call_ensures(compute_fn, (), table) && final(self)@ == old(self)@.stored(
                    key@,
                    table@,
                ),
            },
    {
        match self.get_query_from_cache(key) {
            Some(answer) => answer,
            None => {
                let table = compute_fn();
                self.insert_query_to_cache(key, table.copy());
                table
            },
        }
    }

    /// Replaces the table. The stored answers stay: `analyze_file` is the
    /// load of a file, which forgets them.
    pub fn set_record_batches(&mut self, record_batches: Table)
        ensures
            final(self)@ == (StateView { table: Some(record_batches@), ..old(self)@ }),
    {
        self.record_batches = Some(record_batches);
    }

    /// Loads a file from the fragments that the decoder delivered: their
    /// concatenation becomes the table, and every stored answer is
    /// forgotten. Where the fragments do not make one table, the session
    /// stays as it was.
    pub fn analyze_file(&mut self, batches: Vec<Table>) -> (done: Result<(), EngineError>)
        requires
            old(self).wf(),
            forall|i: int| 0 <= i < batches@.len() ==> (#[trigger] batches@[i]).wf(),
        ensures
            final(self).wf(),
            match done {
                Ok(()) => {
                    &&& concat_fault(tables_view(batches@)) is None
                    &&& final(self)@ == old(self)@.loaded(concat(tables_view(batches@)))
                },
                Err(e) => {
                    &&& concat_fault(tables_view(batches@)) == Some(e)
                    &&& final(self)@ == old(self)@
                },
            },
    {
        let table = convert(batches)?;
        self.clear_cache();
        self.set_record_batches(table);
        Ok(())
    }

    /// Answers a query: with the stored answer where the same query was
    /// answered since the last load, without computing anything; else by
    /// computing the chart, which is then stored under the text of the
    /// query. An error is not stored and changes nothing.
    pub fn request_chart_data(&mut self, rest_query: &String, query: &Query) -> (made: Result<
        Table,
        EngineError,
    >)
        requires
            old(self).wf(),
        ensures
            final(self).wf(),
            final(self)@ == old(self)@.asked(rest_query@, query@),
            match made {
                Ok(table) => table.wf() && old(self)@.answer(rest_query@, query@) == Ok::<
                    TableView,
                    EngineError,
                >(table@),
                Err(e) => old(self)@.answer(rest_query@, query@) == Err::<TableView, EngineError>(
                    e,
                ),
            },
    {
        match self.get_query_from_cache(rest_query) {
            Some(answer) => {
                return Ok(answer);
            },
            None => {},
        }
        let made = match &self.record_batches {
            None => {
                return Err(EngineError::InvalidParameter);
            },
            Some(table) => query.run(table),
        };
        match made {
            Ok(table) => {
                self.insert_query_to_cache(rest_query, table.copy());
                Ok(table)
            },
            Err(e) => Err(e),
        }
    }
}

/// Storing an answer keeps a session well-formed, makes it the answer
/// stored for its key, and leaves the answers for other keys as they were.
pub proof fn lemma_stored(state: StateView, key: Seq<char>, answer: TableView)
    requires
        state.wf(),
        answer.wf(),
    ensures
        state.stored(key, answer).wf(),
        state.stored(key, answer).cached(key) == Some(answer),
        forall|other: Seq<char>|
            other != key ==> state.stored(key, answer).cached(other) == state.cached(other),
{
    let after = state.stored(key, answer);
    let at = first_position(state.keys, key);
    lemma_first_position(state.keys, key);
    lemma_first_position(after.keys, key);
    if at < state.keys.len() {
        assert forall|other: Seq<char>| other != key implies after.cached(other) == state.cached(
            other,
        ) by {
            lemma_first_position(state.keys, other);
        }
    } else {
        assert(!state.keys.contains(key));
        assert(after.keys[at] == key);
        assert(after.keys.contains(key));
        let found = first_position(after.keys, key);
        if found < at {
            assert(state.keys[found] == key);
        }
        assert forall|other: Seq<char>| other != key implies after.cached(other) == state.cached(
            other,
        ) by {
            lemma_first_position(state.keys, other);
            lemma_first_position(after.keys, other);
            let a = first_position(state.keys, other);
            let b = first_position(after.keys, other);
            if a < state.keys.len() {
                assert(after.keys[a] == other);
                if b < a {
                    assert(state.keys[b] == after.keys[b]);
                }
                if a < b {
                }
            } else {
                assert(!state.keys.contains(other));
                if b < after.keys.len() {
                    if b < state.keys.len() {
                        assert(state.keys[b] == other);
                    }
                }
            }
        }
        assert forall|i: int, j: int|
            0 <= i < after.keys.len() && 0 <= j < after.keys.len() && i != j implies after.keys[i]
            != after.keys[j] by {
            if i < state.keys.len() && j < state.keys.len() {
                assert(state.keys[i] != state.keys[j]);
            } else if i < state.keys.len() {
                assert(state.keys[i] == after.keys[i]);
                assert(state.keys.contains(state.keys[i]));
            } else if j < state.keys.len() {
                assert(state.keys[j] == after.keys[j]);
                assert(state.keys.contains(state.keys[j]));
            }
        }
    }
}

/// A query asked twice in a row has the same answer both times, and the
/// second time the answer is the stored one: the session does not change
/// again.
pub proof fn lemma_repeated_query(state: StateView, key: Seq<char>, query: QueryView)
    requires
        state.wf(),
        state.answer(key, query) matches Ok(answer) ==> answer.wf(),
    ensures
        state.asked(key, query).answer(key, query) == state.answer(key, query),
        state.answer(key, query) is Ok ==> state.asked(key, query).cached(key) == Some(
            state.answer(key, query)->Ok_0,
        ),
        state.asked(key, query).asked(key, query) == state.asked(key, query),
{
    match (state.cached(key), state.answer(key, query)) {
        (None, Ok(answer)) => {
            lemma_stored(state, key, answer);
        },
        _ => {},
    }
}

/// After a load no answer is stored, whatever was stored before.
pub proof fn lemma_load_clears(state: StateView, table: TableView, key: Seq<char>)
    ensures
        state.loaded(table).cached(key) is None,
        state.loaded(table).table == Some(table),
{
}

} // verus!
