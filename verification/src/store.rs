//! The note storage engine: a SQLite-backed table of notes behind a handle
//! that owns the connection and assigns fresh ids.
//!
//! The table is modelled by the uninterpreted function [`table_notes`],
//! which maps a connection to the finite map from id to
//! `(name, text, completed)` of the rows of its `notes` table (the empty map
//! while the table does not exist). Every statement the engine runs is
//! wrapped in a trusted function whose contract states, over that model,
//! what the statement does. Those contracts read the connection as the one
//! owner of its database — a single connection per database and no writer
//! outside this process — which is the resource model the engine is
//! specified under.

use vstd::prelude::*;
use crate::errors::StorageError;
use crate::like::like_matches;
use crate::like::like_match;
use crate::notes::Note;

verus! {

#[verifier::external_type_specification]
#[verifier::external_body]
pub struct ExConnection(rusqlite::Connection);

#[verifier::external_type_specification]
#[verifier::external_body]
pub struct ExSqlError(rusqlite::Error);

#[verifier::external_type_specification]
#[verifier::external_body]
pub struct ExRow<'a>(rusqlite::Row<'a>);

/// The empty notes table.
pub open spec fn empty_table() -> Map<int, (Seq<char>, Seq<char>, bool)> {
    Map::empty()
}

/// The rows of the `notes` table of a connection: a map from id to
/// `(name, text, completed)`; the empty map while no such table exists.
pub uninterp spec fn table_notes(conn: rusqlite::Connection) -> Map<int, (Seq<char>, Seq<char>, bool)>;

/// The table after setting the completion flag of the note `id` to `done`:
/// unchanged when `id` is absent.
pub open spec fn set_completed_model(
    m: Map<int, (Seq<char>, Seq<char>, bool)>,
    id: int,
    done: bool,
) -> Map<int, (Seq<char>, Seq<char>, bool)> {
    if m.contains_key(id) {
        m.insert(id, (m[id].0, m[id].1, done))
    } else {
        m
    }
}

/// The table after renaming the note `id`: unchanged when `id` is absent.
pub open spec fn rename_model(
    m: Map<int, (Seq<char>, Seq<char>, bool)>,
    id: int,
    name: Seq<char>,
) -> Map<int, (Seq<char>, Seq<char>, bool)> {
    if m.contains_key(id) {
        m.insert(id, (name, m[id].1, m[id].2))
    } else {
        m
    }
}

/// The table after replacing the text of the note `id`: unchanged when `id`
/// is absent.
pub open spec fn set_text_model(
    m: Map<int, (Seq<char>, Seq<char>, bool)>,
    id: int,
    text: Seq<char>,
) -> Map<int, (Seq<char>, Seq<char>, bool)> {
    if m.contains_key(id) {
        m.insert(id, (m[id].0, text, m[id].2))
    } else {
        m
    }
}

/// Whether the note vector `v` holds exactly the entries of the table `m`,
/// each id once, in some order.
pub open spec fn rows_match_table(v: Seq<Note>, m: Map<int, (Seq<char>, Seq<char>, bool)>) -> bool {
    &&& forall|i: int| 0 <= i < v.len() ==> m.contains_key((#[trigger] v[i])@.id)
    &&& forall|i: int|
        0 <= i < v.len() ==> m[(#[trigger] v[i])@.id] == (v[i]@.name, v[i]@.text, v[i]@.completed)
    &&& forall|i: int, j: int|
        0 <= i < j < v.len() ==> (#[trigger] v[i])@.id != (#[trigger] v[j])@.id
    &&& forall|k: int|
        #[trigger] m.contains_key(k) ==> exists|i: int| 0 <= i < v.len() && (#[trigger] v[i])@.id == k
}

/// The entries of `m` whose name matches the pattern `p`.
pub open spec fn like_submap(
    m: Map<int, (Seq<char>, Seq<char>, bool)>,
    p: Seq<char>,
) -> Map<int, (Seq<char>, Seq<char>, bool)> {
    Map::new(|k: int| m.contains_key(k) && like_matches(p, m[k].0), |k: int| m[k])
}

/// Relies on rusqlite's `Connection::open_in_memory`: a fresh in-memory
/// database holds no tables at all, so its notes table is empty.
#[verifier::external_body]
fn open_memory_conn() -> (r: Result<rusqlite::Connection, rusqlite::Error>)
    ensures
        r is Ok ==> table_notes(r->Ok_0) == empty_table(),
{
    rusqlite::Connection::open_in_memory()
}

/// Relies on rusqlite's `Connection::open`: it opens or creates the
/// database file at the given path; nothing is known of its contents.
#[verifier::external_body]
fn open_path_conn(path: &str) -> (r: Result<rusqlite::Connection, rusqlite::Error>) {
    rusqlite::Connection::open(path)
}

/// Relies on rusqlite's `Connection::execute` running
/// `CREATE TABLE IF NOT EXISTS`: it creates the notes table when absent and
/// never touches existing rows.
#[verifier::external_body]
fn exec_create_table(conn: &mut rusqlite::Connection) -> (r: Result<(), rusqlite::Error>)
    ensures
        table_notes(*final(conn)) == table_notes(*old(conn)),
{
    let sql = "CREATE TABLE IF NOT EXISTS notes (
        id          INTEGER PRIMARY KEY,
        name        TEXT NOT NULL,
        text        TEXT,
        completed   INTEGER NOT NULL
    )";
    match conn.execute(sql, ()) {
        Ok(_) => Ok(()),
        Err(e) => Err(e),
    }
}

/// Relies on rusqlite's `Connection::execute` running an `INSERT`: on
/// success exactly the one given row was added (the id column is the
/// integer primary key, so a duplicate id makes the statement fail), and a
/// failed statement changes nothing, each statement being atomic.
#[verifier::external_body]
fn exec_insert(conn: &mut rusqlite::Connection, id: i32, name: &str, text: &str) -> (r: Result<
    (),
    rusqlite::Error,
>)
    ensures
        r is Ok ==> table_notes(*final(conn)) == table_notes(*old(conn)).insert(
            id as int,
            (name@, text@, false),
        ),
        r is Err ==> table_notes(*final(conn)) == table_notes(*old(conn)),
{
    let sql = "INSERT INTO notes (id, name, text, completed) VALUES (?1, ?2, ?3, FALSE)";
    match conn.execute(sql, (id, name, text)) {
        Ok(_) => Ok(()),
        Err(e) => Err(e),
    }
}

/// Relies on rusqlite's `Connection::execute` running a `DELETE` by id: on
/// success the row with that id (if any) is gone and nothing else changed;
/// a failed statement changes nothing.
#[verifier::external_body]
fn exec_delete(conn: &mut rusqlite::Connection, id: i32) -> (r: Result<(), rusqlite::Error>)
    ensures
        r is Ok ==> table_notes(*final(conn)) == table_notes(*old(conn)).remove(id as int),
        r is Err ==> table_notes(*final(conn)) == table_notes(*old(conn)),
{
    match conn.execute("DELETE FROM notes WHERE id = ?1", (id,)) {
        Ok(_) => Ok(()),
        Err(e) => Err(e),
    }
}

/// Relies on rusqlite's `Connection::execute` running
/// `UPDATE notes SET completed = ?`: on success the flag of the row with
/// that id (if any) holds the given value and nothing else changed; a
/// failed statement changes nothing.
#[verifier::external_body]
fn exec_set_completed(conn: &mut rusqlite::Connection, id: i32, done: bool) -> (r: Result<
    (),
    rusqlite::Error,
>)
    ensures
        r is Ok ==> table_notes(*final(conn)) == set_completed_model(
            table_notes(*old(conn)),
            id as int,
            done,
        ),
        r is Err ==> table_notes(*final(conn)) == table_notes(*old(conn)),
{
    match conn.execute("UPDATE notes SET completed = ?2 WHERE id = ?1", (id, done)) {
        Ok(_) => Ok(()),
        Err(e) => Err(e),
    }
}

/// Relies on rusqlite's `Connection::execute` running
/// `UPDATE notes SET name = ?`: on success the name of the row with that id
/// (if any) holds the given value and nothing else changed; a failed
/// statement changes nothing.
#[verifier::external_body]
fn exec_set_name(conn: &mut rusqlite::Connection, id: i32, name: &str) -> (r: Result<
    (),
    rusqlite::Error,
>)
    ensures
        r is Ok ==> table_notes(*final(conn)) == rename_model(
            table_notes(*old(conn)),
            id as int,
            name@,
        ),
        r is Err ==> table_notes(*final(conn)) == table_notes(*old(conn)),
{
    match conn.execute("UPDATE notes SET name = ?2 WHERE id = ?1", (id, name)) {
        Ok(_) => Ok(()),
        Err(e) => Err(e),
    }
}

/// Relies on rusqlite's `Connection::execute` running
/// `UPDATE notes SET text = ?`: on success the text of the row with that id
/// (if any) holds the given value and nothing else changed; a failed
/// statement changes nothing.
#[verifier::external_body]
fn exec_set_text(conn: &mut rusqlite::Connection, id: i32, text: &str) -> (r: Result<
    (),
    rusqlite::Error,
>)
    ensures
        r is Ok ==> table_notes(*final(conn)) == set_text_model(
            table_notes(*old(conn)),
            id as int,
            text@,
        ),
        r is Err ==> table_notes(*final(conn)) == table_notes(*old(conn)),
{
    match conn.execute("UPDATE notes SET text = ?2 WHERE id = ?1", (id, text)) {
        Ok(_) => Ok(()),
        Err(e) => Err(e),
    }
}

/// Relies on rusqlite's `Connection::query_row` running `SELECT MAX(id)`:
/// `MAX` returns the largest id, or NULL when the table is empty, and the
/// conversion to `i32` fails for an id outside the `i32` range.
#[verifier::external_body]
fn query_max_id(conn: &rusqlite::Connection) -> (r: Result<Option<i32>, rusqlite::Error>)
    ensures
        r is Ok && r->Ok_0 is Some ==> forall|k: int|
            table_notes(*conn).contains_key(k) ==> k <= r->Ok_0->Some_0 as int,
        r is Ok && r->Ok_0 is None ==> table_notes(*conn) == empty_table(),
{
    conn.query_row("SELECT MAX(id) FROM notes", (), |row| row.get::<_, Option<i32>>(0))
}

/// Relies on rusqlite's `Statement::query_map` running `SELECT` over the
/// whole notes table: on success the collected vector holds exactly the
/// rows of the table, each id once, in unspecified order; a row that does
/// not decode (an id outside `i32`, a NULL text) makes the query fail.
#[verifier::external_body]
fn query_all_rows(conn: &rusqlite::Connection) -> (r: Result<Vec<Note>, rusqlite::Error>)
    ensures
        r matches Ok(v) ==> rows_match_table(v@, table_notes(*conn)),
{
    let mut stmt = conn.prepare("SELECT id, name, text, completed FROM notes")?;
    let rows = stmt.query_map((), Note::from_row)?;
    rows.collect()
}

impl Note {
    /// Relies on rusqlite's `Row::get` to decode the four columns of a
    /// notes row, in schema order.
    #[verifier::external_body]
    pub fn from_row(row: &rusqlite::Row<'_>) -> (r: Result<Note, rusqlite::Error>) {
        Ok(
            Note {
                id: row.get(0)?,
                name: row.get(1)?,
                text: row.get(2)?,
                completed: row.get(3)?,
            },
        )
    }
}

/// The storage engine: one SQLite connection owning the notes table, and
/// the next id to assign. Within one open handle ids are handed out
/// monotonically and never reused, so every id in the table lies below
/// `next_id`; after reopening a durable store, assignment resumes above
/// the largest id then present, so an id freed by deleting the largest
/// note can be assigned again by the later handle.
pub struct Database {
    conn: rusqlite::Connection,
    next_id: i64,
}

impl View for Database {
    type V = Map<int, (Seq<char>, Seq<char>, bool)>;

    closed spec fn view(&self) -> Map<int, (Seq<char>, Seq<char>, bool)> {
        table_notes(self.conn)
    }
}

impl Database {
    /// The next id the store will assign.
    pub closed spec fn spec_next_id(&self) -> int {
        self.next_id as int
    }

    /// Well-formedness: the next id is positive, fits the id column, and
    /// lies strictly above every id in the table.
    pub closed spec fn wf(&self) -> bool {
        &&& 1 <= self.next_id <= 2147483648
        &&& forall|k: int| self@.contains_key(k) ==> k < self.next_id as int
    }

    /// Open the durable store at its well-known path, creating the schema
    /// when absent, and recover the next id from the largest stored one.
    /// Fails with `Unavailable` when the backing medium cannot be opened or
    /// read.
    pub fn new() -> (r: Result<Database, StorageError>)
        ensures
            r matches Ok(db) ==> db.wf(),
            r matches Err(e) ==> e == StorageError::Unavailable,
    {
        let mut conn = match open_path_conn("db.db") {
            Ok(c) => c,
            Err(_) => return Err(StorageError::Unavailable),
        };
        if exec_create_table(&mut conn).is_err() {
            return Err(StorageError::Unavailable);
        }
        let next_id: i64 = match query_max_id(&conn) {
            Ok(None) => 1,
            Ok(Some(m)) => {
                if m < 1 {
                    1
                } else {
                    m as i64 + 1
                }
            },
            Err(_) => return Err(StorageError::Unavailable),
        };
        Ok(Database { conn, next_id })
    }

    /// Open a fresh in-memory store: empty, with ids starting at 1. Fails
    /// with `Unavailable` when the in-memory database cannot be set up.
    pub fn new_in_memory() -> (r: Result<Database, StorageError>)
        ensures
            r matches Ok(db) ==> db.wf() && db@ == empty_table() && db.spec_next_id() == 1,
            r matches Err(e) ==> e == StorageError::Unavailable,
    {
        let mut conn = match open_memory_conn() {
            Ok(c) => c,
            Err(_) => return Err(StorageError::Unavailable),
        };
        if exec_create_table(&mut conn).is_err() {
            return Err(StorageError::Unavailable);
        }
        Ok(Database { conn, next_id: 1 })
    }

    /// Insert a new note with the given name and text: it gets the next
    /// fresh id and starts not completed. Succeeds whenever an id can still
    /// be assigned and the backing insert statement goes through.
    pub fn add_note(&mut self, name: &str, text: &str) -> (r: Result<Note, StorageError>)
        requires
            old(self).wf(),
        ensures
            final(self).wf(),
            r matches Ok(n) ==> n@.id == old(self).spec_next_id() && n@.name == name@ && n@.text
                == text@ && !n@.completed,
            r matches Ok(n) ==> !old(self)@.contains_key(n@.id),
            r matches Ok(n) ==> final(self)@ == old(self)@.insert(
                old(self).spec_next_id(),
                (name@, text@, false),
            ),
            r matches Ok(n) ==> final(self).spec_next_id() == old(self).spec_next_id() + 1,
            r is Err ==> final(self)@ == old(self)@ && final(self).spec_next_id() == old(
                self,
            ).spec_next_id(),
    {
        if self.next_id > 2147483647 {
            proof {
                assert forall|k: int| self@.contains_key(k) implies k < self.next_id as int by {
                    assert(old(self)@.contains_key(k));
                }
            }
            return Err(StorageError::Failed);
        }
        let id = self.next_id as i32;
        match exec_insert(&mut self.conn, id, name, text) {
            Ok(_) => {
                self.next_id = self.next_id + 1;
                proof {
                    assert forall|k: int| self@.contains_key(k) implies k < self.next_id as int by {
                        if k != id as int {
                            assert(old(self)@.contains_key(k));
                        }
                    }
                }
                Ok(Note { id, name: name.to_owned(), text: text.to_owned(), completed: false })
            },
            Err(_) => {
                proof {
                    assert forall|k: int| self@.contains_key(k) implies k < self.next_id as int by {
                        assert(old(self)@.contains_key(k));
                    }
                }
                Err(StorageError::Failed)
            },
        }
    }

    /// All stored notes, in unspecified order: callers needing the display
    /// order sort explicitly.
    pub fn get_all_notes(&self) -> (r: Result<Vec<Note>, StorageError>)
        ensures
            r matches Ok(v) ==> rows_match_table(v@, self@),
            r matches Err(e) ==> e == StorageError::Failed,
    {
        match query_all_rows(&self.conn) {
            Ok(v) => Ok(v),
            Err(_) => Err(StorageError::Failed),
        }
    }

    /// The notes whose name matches the pattern, in unspecified order:
    /// exactly the entries of `like_submap(self@, name@)`. An empty result
    /// is no error.
    pub fn search_notes(&self, name: &str) -> (r: Result<Vec<Note>, StorageError>)
        ensures
            r matches Ok(v) ==> rows_match_table(v@, like_submap(self@, name@)),
            r matches Err(e) ==> e == StorageError::Failed,
    {
        let mut rows = match query_all_rows(&self.conn) {
            Ok(v) => v,
            Err(_) => return Err(StorageError::Failed),
        };
        let ghost m = self@;
        let ghost sub = like_submap(m, name@);
        let ghost orig = rows@;
        let mut result: Vec<Note> = Vec::new();
        while rows.len() > 0
            invariant
                rows_match_table(orig, m),
                sub == like_submap(m, name@),
                rows@.len() <= orig.len(),
                rows@ =~= orig.skip(orig.len() - rows@.len()),
                forall|i: int|
                    0 <= i < result@.len() ==> sub.contains_key((#[trigger] result@[i])@.id),
                forall|i: int|
                    0 <= i < result@.len() ==> sub[(#[trigger] result@[i])@.id] == (
                        result@[i]@.name,
                        result@[i]@.text,
                        result@[i]@.completed,
                    ),
                forall|i: int|
                    0 <= i < result@.len() ==> exists|j: int|
                        0 <= j < orig.len() - rows@.len() && (#[trigger] orig[j])@.id == (
                        #[trigger] result@[i])@.id,
                forall|i1: int, i2: int|
                    0 <= i1 < i2 < result@.len() ==> (#[trigger] result@[i1])@.id != (
                    #[trigger] result@[i2])@.id,
                forall|k2: int|
                    #[trigger] sub.contains_key(k2) && (exists|j: int|
                        0 <= j < orig.len() - rows@.len() && (#[trigger] orig[j])@.id == k2)
                        ==> exists|i: int|
                        0 <= i < result@.len() && (#[trigger] result@[i])@.id == k2,
            decreases rows@.len(),
        {
            let ghost processed = orig.len() - rows@.len();
            let note = rows.remove(0);
            proof {
                assert(note == orig[processed]);
                assert(rows@ =~= orig.skip(processed + 1));
            }
            let matched = like_match(name, note.name.as_str());
            let ghost result_before = result@;
            if matched {
                result.push(note);
            }
            proof {
                assert forall|k2: int|
                    #[trigger] sub.contains_key(k2) && (exists|j: int|
                        0 <= j < processed + 1 && (#[trigger] orig[j])@.id == k2)
                        implies exists|i: int|
                        0 <= i < result@.len() && (#[trigger] result@[i])@.id == k2 by {
                    let j = choose|j: int| 0 <= j < processed + 1 && (#[trigger] orig[j])@.id == k2;
                    if j < processed {
                        assert(exists|i: int|
                            0 <= i < result_before.len() && (#[trigger] result_before[i])@.id == k2);
                        let i = choose|i: int|
                            0 <= i < result_before.len() && (#[trigger] result_before[i])@.id == k2;
                        assert(result@[i]@.id == k2);
                    } else {
                        assert(orig[processed]@.id == k2);
                        assert(m[k2] == (note@.name, note@.text, note@.completed));
                        assert(like_matches(name@, m[k2].0));
                        assert(matched);
                        assert(result@[result@.len() - 1]@.id == k2);
                    }
                }
            }
        }
        proof {
            assert(orig.len() - rows@.len() == orig.len());
            assert forall|k2: int| #[trigger] sub.contains_key(k2) implies exists|i: int|
                0 <= i < result@.len() && (#[trigger] result@[i])@.id == k2 by {
                assert(m.contains_key(k2));
                assert(exists|j: int| 0 <= j < orig.len() && (#[trigger] orig[j])@.id == k2);
            }
            assert(rows_match_table(result@, sub));
        }
        Ok(result)
    }

    /// Delete the note with the given id; deleting an absent id is a
    /// silent no-op, so the operation is idempotent.
    pub fn remove_note(&mut self, id: i32) -> (r: Result<(), StorageError>)
        requires
            old(self).wf(),
        ensures
            final(self).wf(),
            final(self).spec_next_id() == old(self).spec_next_id(),
            r is Ok ==> final(self)@ == old(self)@.remove(id as int),
            r is Err ==> final(self)@ == old(self)@,
    {
        let r = exec_delete(&mut self.conn, id);
        proof {
            assert forall|k: int| self@.contains_key(k) implies k < self.next_id as int by {
                assert(old(self)@.contains_key(k));
            }
        }
        match r {
            Ok(_) => Ok(()),
            Err(_) => Err(StorageError::Failed),
        }
    }

    /// Mark the note with the given id completed; an absent id, or a note
    /// already completed, is a silent no-op.
    pub fn complete_a_note(&mut self, id: i32) -> (r: Result<(), StorageError>)
        requires
            old(self).wf(),
        ensures
            final(self).wf(),
            final(self).spec_next_id() == old(self).spec_next_id(),
            r is Ok ==> final(self)@ == set_completed_model(old(self)@, id as int, true),
            r is Err ==> final(self)@ == old(self)@,
    {
        let r = exec_set_completed(&mut self.conn, id, true);
        proof {
            assert forall|k: int| self@.contains_key(k) implies k < self.next_id as int by {
                assert(old(self)@.contains_key(k));
            }
        }
        match r {
            Ok(_) => Ok(()),
            Err(_) => Err(StorageError::Failed),
        }
    }

    /// Mark the note with the given id not completed; an absent id is a
    /// silent no-op.
    pub fn uncomplete_a_note(&mut self, id: i32) -> (r: Result<(), StorageError>)
        requires
            old(self).wf(),
        ensures
            final(self).wf(),
            final(self).spec_next_id() == old(self).spec_next_id(),
            r is Ok ==> final(self)@ == set_completed_model(old(self)@, id as int, false),
            r is Err ==> final(self)@ == old(self)@,
    {
        let r = exec_set_completed(&mut self.conn, id, false);
        proof {
            assert forall|k: int| self@.contains_key(k) implies k < self.next_id as int by {
                assert(old(self)@.contains_key(k));
            }
        }
        match r {
            Ok(_) => Ok(()),
            Err(_) => Err(StorageError::Failed),
        }
    }

    /// Overwrite the name of the note with the given id; an absent id is a
    /// silent no-op.
    pub fn rename_note(&mut self, id: i32, new_name: &str) -> (r: Result<(), StorageError>)
        requires
            old(self).wf(),
        ensures
            final(self).wf(),
            final(self).spec_next_id() == old(self).spec_next_id(),
            r is Ok ==> final(self)@ == rename_model(old(self)@, id as int, new_name@),
            r is Err ==> final(self)@ == old(self)@,
    {
        let r = exec_set_name(&mut self.conn, id, new_name);
        proof {
            assert forall|k: int| self@.contains_key(k) implies k < self.next_id as int by {
                assert(old(self)@.contains_key(k));
            }
        }
        match r {
            Ok(_) => Ok(()),
            Err(_) => Err(StorageError::Failed),
        }
    }

    /// Overwrite the text of the note with the given id; an absent id is a
    /// silent no-op.
    pub fn change_note_text(&mut self, id: i32, new_text: &str) -> (r: Result<(), StorageError>)
        requires
            old(self).wf(),
        ensures
            final(self).wf(),
            final(self).spec_next_id() == old(self).spec_next_id(),
            r is Ok ==> final(self)@ == set_text_model(old(self)@, id as int, new_text@),
            r is Err ==> final(self)@ == old(self)@,
    {
        let r = exec_set_text(&mut self.conn, id, new_text);
        proof {
            assert forall|k: int| self@.contains_key(k) implies k < self.next_id as int by {
                assert(old(self)@.contains_key(k));
            }
        }
        match r {
            Ok(_) => Ok(()),
            Err(_) => Err(StorageError::Failed),
        }
    }
}

/// The table reached by adding the given `(name, text)` pairs, in order, to
/// a fresh store: the i-th pair gets id `i + 1` and starts not completed.
/// This is the state `add_note` builds, since from a fresh store it inserts
/// under `spec_next_id()` and increments it by one each call.
pub open spec fn state_after_adds(pairs: Seq<(Seq<char>, Seq<char>)>) -> Map<
    int,
    (Seq<char>, Seq<char>, bool),
>
    decreases pairs.len(),
{
    if pairs.len() == 0 {
        Map::empty()
    } else {
        state_after_adds(pairs.drop_last()).insert(
            pairs.len() as int,
            (pairs.last().0, pairs.last().1, false),
        )
    }
}

/// Adding any sequence of `(name, text)` pairs, in order, to a fresh store
/// yields exactly the ids 1 through n, assigned consecutively in insertion
/// order, each note holding its pair and not completed.
pub proof fn lemma_adds_assign_consecutive_ids(pairs: Seq<(Seq<char>, Seq<char>)>)
    ensures
        forall|k: int| state_after_adds(pairs).contains_key(k) <==> 1 <= k <= pairs.len(),
        forall|k: int|
            1 <= k <= pairs.len() ==> state_after_adds(pairs)[k] == (
                pairs[k - 1].0,
                pairs[k - 1].1,
                false,
            ),
    decreases pairs.len(),
{
    if pairs.len() > 0 {
        let prev = pairs.drop_last();
        lemma_adds_assign_consecutive_ids(prev);
        assert forall|k: int| state_after_adds(pairs).contains_key(k) implies 1 <= k
            <= pairs.len() by {
            if k != pairs.len() {
                assert(state_after_adds(prev).contains_key(k));
            }
        }
        assert forall|k: int| 1 <= k <= pairs.len() implies state_after_adds(
            pairs,
        ).contains_key(k) by {
            if k < pairs.len() {
                assert(state_after_adds(prev).contains_key(k));
            }
        }
        assert forall|k: int| 1 <= k <= pairs.len() implies state_after_adds(pairs)[k] == (
            pairs[k - 1].0,
            pairs[k - 1].1,
            false,
        ) by {
            if k < pairs.len() {
                assert(state_after_adds(prev)[k] == (prev[k - 1].0, prev[k - 1].1, false));
                assert(prev[k - 1] == pairs[k - 1]);
            }
        }
    }
}

/// Removing an id is idempotent: a second removal changes nothing, and
/// removing an absent id leaves the table as it is.
pub proof fn lemma_remove_idempotent(m: Map<int, (Seq<char>, Seq<char>, bool)>, id: int)
    ensures
        m.remove(id).remove(id) == m.remove(id),
        !m.contains_key(id) ==> m.remove(id) == m,
{
    assert(m.remove(id).remove(id) =~= m.remove(id));
    if !m.contains_key(id) {
        assert(m.remove(id) =~= m);
    }
}

/// Setting the completion flag is idempotent: setting it twice to the same
/// value, on the same id, leaves the same table as setting it once, with no
/// error either time.
pub proof fn lemma_set_completed_idempotent(
    m: Map<int, (Seq<char>, Seq<char>, bool)>,
    id: int,
    done: bool,
)
    ensures
        set_completed_model(set_completed_model(m, id, done), id, done) == set_completed_model(
            m,
            id,
            done,
        ),
{
    assert(set_completed_model(set_completed_model(m, id, done), id, done) =~= set_completed_model(
        m,
        id,
        done,
    ));
}

/// Renaming, changing the text, or setting the flag of an absent id leaves
/// the table unchanged.
pub proof fn lemma_modify_absent_is_noop(
    m: Map<int, (Seq<char>, Seq<char>, bool)>,
    id: int,
    name: Seq<char>,
    text: Seq<char>,
    done: bool,
)
    requires
        !m.contains_key(id),
    ensures
        rename_model(m, id, name) == m,
        set_text_model(m, id, text) == m,
        set_completed_model(m, id, done) == m,
{
}

} // verus!
