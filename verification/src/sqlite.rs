use vstd::prelude::*;

use crate::manifest::Query;
use crate::runner::{first_mutating, first_writer, mutation_message};

verus! {

/// Trusted: `rusqlite::version()` returns the version string of the SQLite
/// library linked into this binary. It is a property of the build, not of any
/// argument, so nothing is stated about its value.
#[verifier::external_body]
pub(crate) fn linked_sqlite_version() -> String {
    rusqlite::version().to_string()
}

#[verifier::external_type_specification]
#[verifier::external_body]
pub struct ExConnection(rusqlite::Connection);

/// Trusted: `rusqlite::Connection::open_in_memory` opens a fresh in-memory
/// database. Whether SQLite succeeds is not stated; an error is handed back
/// as its message.
#[verifier::external_body]
fn open_in_memory() -> (r: Result<rusqlite::Connection, String>) {
    match rusqlite::Connection::open_in_memory() {
        Ok(connection) => Ok(connection),
        Err(error) => Err(error.to_string()),
    }
}

/// A scratch in-memory SQLite database, with a record of every text handed
/// to SQLite through it and what SQLite answered.
pub struct ScratchDatabase {
    connection: rusqlite::Connection,
    record: Ghost<Seq<(Seq<char>, Option<bool>)>>,
}

/// SQLite's answer about one measured query: not refused as writing when it
/// could not be prepared (`None`) or was classified read-only (`Some(true)`).
pub open spec fn not_writing(answer: Option<bool>) -> bool {
    answer != Some(false)
}

/// The queries' SQL in order, each with the answer SQLite gave for it.
pub open spec fn classified_queries(queries: Seq<Query>, answers: Seq<Option<bool>>) -> Seq<(Seq<char>, Option<bool>)> {
    Seq::new(answers.len(), |j: int| (queries[j].sql@, answers[j]))
}

/// The answers recorded for `n` queries after the batch recorded at `start`.
pub open spec fn answers_of(record: Seq<(Seq<char>, Option<bool>)>, start: int, n: nat) -> Seq<Option<bool>> {
    Seq::new(n, |j: int| record[start + 1 + j].1)
}

/// The read-only classification of each answer.
pub open spec fn read_only_flags(answers: Seq<Option<bool>>) -> Seq<bool> {
    answers.map_values(|a: Option<bool>| not_writing(a))
}

impl ScratchDatabase {
    /// Every text handed to SQLite, in order, with its answer: for a batch,
    /// `Some(true)` when it ran and `None` when SQLite refused it; for a
    /// statement, `Some(readonly)` when it was prepared and `None` otherwise.
    pub closed spec fn record(&self) -> Seq<(Seq<char>, Option<bool>)> {
        self.record@
    }

    /// Opens a scratch database with nothing handed to it yet, if SQLite can.
    pub fn open() -> (r: Option<ScratchDatabase>)
        ensures
            r is Some ==> r->0.record() == Seq::<(Seq<char>, Option<bool>)>::empty(),
    {
        match open_in_memory() {
            Ok(connection) => Some(ScratchDatabase { connection, record: Ghost(Seq::empty()) }),
            Err(_) => None,
        }
    }

    /// Trusted: `rusqlite::Connection::execute_batch` runs every statement of
    /// `sql`. Only that the text was handed over, and whether SQLite ran it,
    /// is recorded; what SQLite makes of it is not stated.
    #[verifier::external_body]
    fn apply(&mut self, sql: &str) -> (r: bool)
        ensures
            final(self).record() == old(self).record().push(
                (sql@, if r { Some(true) } else { None }),
            ),
    {
        self.connection.execute_batch(sql).is_ok()
    }

    /// Trusted: `rusqlite::Connection::prepare` compiles one statement, and the
    /// prepared statement's `readonly` gives SQLite's classification of it.
    /// The text and the answer (`None` when SQLite did not prepare it) are
    /// recorded; the classification itself is not stated.
    #[verifier::external_body]
    fn classify(&mut self, sql: &str) -> (r: Option<bool>)
        ensures
            final(self).record() == old(self).record().push((sql@, r)),
    {
        match self.connection.prepare(sql) {
            Ok(statement) => Some(statement.readonly()),
            Err(_) => None,
        }
    }
}

fn push_name(names: &mut Vec<String>, name: &String)
    ensures
        final(names)@.map_values(|s: String| s@) == old(names)@.map_values(|s: String| s@).push(name@),
{
    names.push(name.clone());
    assert(names@.map_values(|s: String| s@) =~= old(names)@.map_values(|s: String| s@).push(name@));
}

/// Applies the fixture SQL to the scratch database, then has SQLite classify
/// every measured query there, in order, and refuses the first that it
/// classifies as writing. A fixture or query that SQLite does not accept is
/// not refused here: `check` only rejects writing queries.
pub fn check_read_only(db: &mut ScratchDatabase, fixture_sql: &str, queries: &Vec<Query>) -> (r:
    Result<(), String>)
    ensures
        final(db).record().len() == old(db).record().len() + 1 + queries@.len(),
        final(db).record().take(old(db).record().len() as int) == old(db).record(),
        final(db).record()[old(db).record().len() as int].0 == fixture_sql@,
        final(db).record().skip(old(db).record().len() + 1int) == classified_queries(
            queries@,
            answers_of(final(db).record(), old(db).record().len() as int, queries@.len()),
        ),
        ({
            let answers = answers_of(final(db).record(), old(db).record().len() as int, queries@.len());
            let w = first_writer(read_only_flags(answers), queries@.len() as int);
            match r {
                Ok(()) => w == -1 && forall|j: int|
                    0 <= j < queries@.len() ==> not_writing(#[trigger] answers[j]),
                Err(e) => 0 <= w < queries@.len() && answers[w] == Some(false) && e@
                    == mutation_message(queries@[w].name@),
            }
        }),
{
    let ghost before = db.record();
    db.apply(fixture_sql);
    let mut names: Vec<String> = Vec::new();
    let mut flags: Vec<bool> = Vec::new();
    let ghost mut answers: Seq<Option<bool>> = Seq::empty();
    let mut i: usize = 0;
    while i < queries.len()
        invariant
            i <= queries@.len(),
            names@.len() == i,
            flags@.len() == i,
            answers.len() == i,
            flags@ == read_only_flags(answers),
            names@.map_values(|s: String| s@) == queries@.take(i as int).map_values(|q: Query| q.name@),
            db.record().len() == before.len() + 1 + i,
            db.record().take(before.len() as int) == before,
            db.record()[before.len() as int].0 == fixture_sql@,
            db.record().skip(before.len() + 1int) == classified_queries(queries@, answers),
        decreases queries@.len() - i,
    {
        let ghost prev = db.record();
        let answer = db.classify(queries[i].sql.as_str());
        let readonly = match answer {
            Some(false) => false,
            _ => true,
        };
        flags.push(readonly);
        push_name(&mut names, &queries[i].name);
        proof {
            assert(answers.push(answer).drop_last() == answers);
            answers = answers.push(answer);
            assert(queries@.take(i + 1).map_values(|q: Query| q.name@) =~= queries@.take(
                i as int,
            ).map_values(|q: Query| q.name@).push(queries@[i as int].name@));
            assert(flags@ =~= read_only_flags(answers));
            assert(db.record().take(before.len() as int) =~= before);
            let now = db.record();
            assert(now == prev.push((queries@[i as int].sql@, answer)));
            let cq = classified_queries(queries@, answers);
            assert forall|j: int| 0 <= j < cq.len() implies #[trigger] now.skip(before.len() + 1int)[j]
                == cq[j] by {
                if j < i {
                    assert(prev.skip(before.len() + 1int)[j] == classified_queries(
                        queries@,
                        answers.drop_last(),
                    )[j]);
                    assert(answers.drop_last()[j] == answers[j]);
                }
            }
            assert(now.skip(before.len() + 1int) =~= cq);
        }
        i = i + 1;
    }
    proof {
        lemma_names_match(names@, queries@, i as int);
        let after = db.record();
        assert forall|j: int| 0 <= j < i implies after[before.len() + 1 + j].1 == answers[j] by {
            assert(after.skip(before.len() + 1int)[j] == classified_queries(queries@, answers)[j]);
        }
        assert(answers_of(after, before.len() as int, queries@.len()) =~= answers);
    }
    let r = first_mutating(&names, &flags);
    proof {
        let n = queries@.len();
        assert(flags@.len() == n);
        assert forall|j: int| 0 <= j < n implies #[trigger] flags@[j] == not_writing(answers[j]) by {
            assert(read_only_flags(answers)[j] == not_writing(answers[j]));
        }
        let w = first_writer(flags@, n as int);
        if r is Ok {
            assert forall|j: int| 0 <= j < n implies not_writing(#[trigger] answers[j]) by {
                assert(flags@[j]);
            }
        } else {
            assert(!flags@[w]);
            assert(names@[w]@ == queries@[w].name@);
        }
    }
    r
}

proof fn lemma_names_match(names: Seq<String>, queries: Seq<Query>, i: int)
    requires
        0 <= i <= queries.len(),
        names.len() == i,
        names.map_values(|s: String| s@) == queries.take(i).map_values(|q: Query| q.name@),
    ensures
        forall|k: int| 0 <= k < i ==> #[trigger] names[k]@ == queries[k].name@,
{
    assert forall|k: int| 0 <= k < i implies #[trigger] names[k]@ == queries[k].name@ by {
        assert(names.map_values(|s: String| s@)[k] == queries.take(i).map_values(|q: Query| q.name@)[k]);
    }
}

} // verus!
