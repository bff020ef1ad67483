//! The operations on records: what each does to a record and to the cache.
use vstd::prelude::*;
use crate::storage::{
    find_spec, has_id, insertion_point, lemma_matching, lemma_position_of, matching, new_record,
    no_id_taken, position_of, slice_text, Store, StoreError, StoreErrorView,
};
use crate::util::is_id;
use crate::text::{same_text, trim, trimmed};
use crate::todo::{Frontmatter, FrontmatterView, Status, Timestamp, Todo, TodoView};

verus! {

/// Why an operation was not carried out.
#[derive(Debug)]
pub enum OpsError {
    /// The store turned the request down.
    Store(StoreError),
    /// The clock of the system shows no time that a record can hold.
    Clock,
    /// A deletion outside a terminal was not forced.
    ForceRequired,
    /// An edit outside a terminal came without a body.
    NoEditor,
}

impl OpsError {
    /// The error in words.
    pub open spec fn message_spec(self) -> Seq<char> {
        match self {
            OpsError::Store(e) => e@.message(),
            OpsError::Clock => "system clock out of range"@,
            OpsError::ForceRequired => "use --force to delete non-interactively"@,
            OpsError::NoEditor => "cannot open editor non-interactively; use --body"@,
        }
    }

    /// The error in words.
    pub fn message(&self) -> (r: String)
        ensures
            r@ == self.message_spec(),
    {
        match self {
            OpsError::Store(e) => e.message(),
            OpsError::Clock => "system clock out of range".to_owned(),
            OpsError::ForceRequired => "use --force to delete non-interactively".to_owned(),
            OpsError::NoEditor => "cannot open editor non-interactively; use --body".to_owned(),
        }
    }
}

/// The local date and time that the clock of the system shows, or nothing
/// where `jiff` cannot express it. Calls `jiff::Zoned::try_from` on the
/// system time and reads the fields of `Zoned::datetime`; each field lies in
/// the range that `jiff` documents for it.
#[verifier::external_body]
fn local_now() -> (r: Option<Timestamp>)
    ensures
        r matches Some(t) ==> t.in_range(),
{
    let d = jiff::Zoned::try_from(std::time::SystemTime::now()).ok()?.datetime();
    let (year, month, day) = (d.year(), d.month(), d.day());
    let (hour, minute, second) = (d.hour(), d.minute(), d.second());
    let subsec_nanosecond = d.subsec_nanosecond();
    Some(Timestamp { year, month, day, hour, minute, second, subsec_nanosecond })
}

/// The fields of a record that is created at `now` under the title `title`:
/// open, not assigned.
pub open spec fn fresh_fields(title: Seq<char>, now: Timestamp) -> FrontmatterView {
    FrontmatterView {
        title,
        created: now,
        status: Status::Open,
        assigned: None,
        assigned_at: None,
        done_at: None,
    }
}

/// The record `t` with the fields `fm` in place of its own.
pub open spec fn with_fields(t: TodoView, fm: FrontmatterView) -> TodoView {
    TodoView { id: t.id, filename: t.filename, frontmatter: fm, body: t.body }
}

/// The fields `fm` after the task was done at `now`. The time at which it
/// was done first stays.
pub open spec fn marked_done(fm: FrontmatterView, now: Timestamp) -> FrontmatterView {
    FrontmatterView {
        status: Status::Done,
        done_at: if fm.done_at is Some {
            fm.done_at
        } else {
            Some(now)
        },
        ..fm
    }
}

/// The fields `fm` after the task was opened again.
pub open spec fn reopened(fm: FrontmatterView) -> FrontmatterView {
    FrontmatterView { status: Status::Open, done_at: None, ..fm }
}

/// The fields `fm` after the task was assigned at `now`, to `name` or to
/// nobody by name. The time at which it was assigned first stays.
pub open spec fn assigned_to(
    fm: FrontmatterView,
    name: Option<Seq<char>>,
    now: Timestamp,
) -> FrontmatterView {
    FrontmatterView {
        assigned: Some(
            match name {
                Some(n) => n,
                None => Seq::empty(),
            },
        ),
        assigned_at: if fm.assigned_at is Some {
            fm.assigned_at
        } else {
            Some(now)
        },
        ..fm
    }
}

/// The fields `fm` after the assignment was taken away.
pub open spec fn unassigned(fm: FrontmatterView) -> FrontmatterView {
    FrontmatterView { assigned: None, assigned_at: None, ..fm }
}

/// The fields hang together: the task has a time at which it was done
/// exactly where it is done, and a time at which it was assigned exactly
/// where it is assigned.
pub open spec fn is_coherent(fm: FrontmatterView) -> bool {
    &&& fm.status == Status::Done <==> fm.done_at is Some
    &&& fm.assigned is Some <==> fm.assigned_at is Some
}

/// The fields of a new record hang together, and every operation on fields
/// that hang together gives fields that do.
pub proof fn lemma_coherent(
    fm: FrontmatterView,
    title: Seq<char>,
    name: Option<Seq<char>>,
    now: Timestamp,
)
    ensures
        is_coherent(fresh_fields(title, now)),
        is_coherent(fm) ==> is_coherent(marked_done(fm, now)),
        is_coherent(fm) ==> is_coherent(reopened(fm)),
        is_coherent(fm) ==> is_coherent(assigned_to(fm, name, now)),
        is_coherent(fm) ==> is_coherent(unassigned(fm)),
{
}

/// The one record whose id begins with a prefix is the first record with
/// its own id.
pub proof fn lemma_found_is_first(s: Seq<TodoView>, prefix: Seq<char>)
    requires
        find_spec(s, prefix) is Ok,
    ensures
        0 <= find_spec(s, prefix)->Ok_0 < s.len(),
        prefix.is_prefix_of(s[find_spec(s, prefix)->Ok_0].id),
        position_of(s, s[find_spec(s, prefix)->Ok_0].id) == Some(find_spec(s, prefix)->Ok_0),
{
    let i = find_spec(s, prefix)->Ok_0;
    let m = matching(s, prefix);
    lemma_matching(s, prefix);
    assert(m[0] == i);
    lemma_position_of(s, s[i].id);
    let p = position_of(s, s[i].id)->Some_0;
    assert(prefix.is_prefix_of(s[p].id));
    assert(m.contains(p));
}

/// Puts `todo` in the place of the one record whose id begins with `id`,
/// of which it is a changed copy, and returns it.
fn change_fields(store: &mut Store, id: &str, todo: Todo) -> (r: Result<Todo, StoreError>)
    requires
        find_spec(old(store)@, id@) is Ok,
        todo@.id == old(store)@[find_spec(old(store)@, id@)->Ok_0].id,
        todo@.frontmatter.created == old(store)@[find_spec(
            old(store)@,
            id@,
        )->Ok_0].frontmatter.created,
    ensures
        r matches Ok(t) && t@ == todo@,
        final(store)@ == old(store)@.update(find_spec(old(store)@, id@)->Ok_0, todo@),
        final(store).skipped_count() == old(store).skipped_count(),
{
    proof {
        lemma_found_is_first(store@, id@);
    }
    match store.save(&todo) {
        Ok(()) => Ok(todo),
        Err(e) => Err(e),
    }
}

/// The cache `after` is the cache `before` with one more record: open, not
/// assigned, created at `now` under the title `title` with the body `body`
/// and the id `id`, which is an id that no record of `before` has. The record
/// stands behind the records created no later than it.
pub open spec fn creates(
    before: Seq<TodoView>,
    after: Seq<TodoView>,
    id: Seq<char>,
    title: Seq<char>,
    body: Option<Seq<char>>,
    now: Timestamp,
) -> bool {
    let record = new_record(id, fresh_fields(title, now), body);
    &&& is_id(id)
    &&& !has_id(before, id)
    &&& after == before.insert(insertion_point(before, record), record)
}

/// Creates a record under the title `title` with the body `body`, created
/// at `now`, and returns its id. Where no record has an id that a draw can
/// give, the record is created.
pub fn create_todo_at(store: &mut Store, title: &str, body: Option<&str>, now: Timestamp) -> (r:
    Result<String, StoreError>)
    ensures
        final(store).skipped_count() == old(store).skipped_count(),
        no_id_taken(old(store)@) ==> r is Ok,
        match r {
            Ok(id) => creates(old(store)@, final(store)@, id@, title@, slice_text(body), now),
            Err(e) => e@ == StoreErrorView::Exhausted && final(store)@ == old(store)@,
        },
{
    let fm = Frontmatter {
        title: title.to_owned(),
        created: now,
        status: Status::Open,
        assigned: None,
        assigned_at: None,
        done_at: None,
    };
    store.create(&fm, body)
}

/// `creates` holds of some time that a clock can show.
pub open spec fn creates_now(
    before: Seq<TodoView>,
    after: Seq<TodoView>,
    id: Seq<char>,
    title: Seq<char>,
    body: Option<Seq<char>>,
) -> bool {
    exists|now: Timestamp| now.in_range() && #[trigger] creates(before, after, id, title, body, now)
}

/// Creates a record under the title `title` with the body `body`, created
/// at the time that the clock shows, and returns its id. The store turns the
/// request down only where some record has an id that a draw can give.
pub fn create_todo(store: &mut Store, title: &str, body: Option<&str>) -> (r: Result<
    String,
    OpsError,
>)
    ensures
        final(store).skipped_count() == old(store).skipped_count(),
        no_id_taken(old(store)@) ==> !(r matches Err(OpsError::Store(_))),
        match r {
            Ok(id) => creates_now(old(store)@, final(store)@, id@, title@, slice_text(body)),
            Err(OpsError::Store(e)) => e@ == StoreErrorView::Exhausted && final(store)@ == old(store)@,
            Err(OpsError::Clock) => final(store)@ == old(store)@,
            Err(_) => false,
        },
{
    match local_now() {
        Some(now) => {
            let made = create_todo_at(store, title, body, now);
            match made {
                Ok(id) => {
                    assert(now.in_range() && creates(
                        old(store)@,
                        store@,
                        id@,
                        title@,
                        slice_text(body),
                        now,
                    ));
                    Ok(id)
                },
                Err(e) => {
                    assert(e@ == StoreErrorView::Exhausted);
                    assert(store@ == old(store)@);
                    Err(OpsError::Store(e))
                },
            }
        },
        None => Err(OpsError::Clock),
    }
}

/// Marks the one record whose id begins with `id` as done at `now`, and
/// returns the record as it then is.
pub fn mark_done_at(store: &mut Store, id: &str, now: Timestamp) -> (r: Result<Todo, StoreError>)
    ensures
        final(store).skipped_count() == old(store).skipped_count(),
        match find_spec(old(store)@, id@) {
            Ok(i) => {
                &&& r matches Ok(t) && t@ == with_fields(
                    old(store)@[i],
                    marked_done(old(store)@[i].frontmatter, now),
                )
                &&& final(store)@ == old(store)@.update(
                    i,
                    with_fields(old(store)@[i], marked_done(old(store)@[i].frontmatter, now)),
                )
            },
            Err(e) => r matches Err(err) && err@ == e && final(store)@ == old(store)@,
        },
{
    match store.find_by_id(id) {
        Ok(todo) => {
            let mut todo = todo;
            todo.frontmatter.status = Status::Done;
            if todo.frontmatter.done_at.is_none() {
                todo.frontmatter.done_at = Some(now);
            }
            change_fields(store, id, todo)
        },
        Err(e) => Err(e),
    }
}

/// Opens the one record whose id begins with `id` again, and returns the
/// record as it then is.
pub fn reopen_todo(store: &mut Store, id: &str) -> (r: Result<Todo, StoreError>)
    ensures
        final(store).skipped_count() == old(store).skipped_count(),
        match find_spec(old(store)@, id@) {
            Ok(i) => {
                &&& r matches Ok(t) && t@ == with_fields(
                    old(store)@[i],
                    reopened(old(store)@[i].frontmatter),
                )
                &&& final(store)@ == old(store)@.update(
                    i,
                    with_fields(old(store)@[i], reopened(old(store)@[i].frontmatter)),
                )
            },
            Err(e) => r matches Err(err) && err@ == e && final(store)@ == old(store)@,
        },
{
    match store.find_by_id(id) {
        Ok(todo) => {
            let mut todo = todo;
            todo.frontmatter.status = Status::Open;
            todo.frontmatter.done_at = None;
            change_fields(store, id, todo)
        },
        Err(e) => Err(e),
    }
}

/// Assigns the one record whose id begins with `id` at `now`, to `name` or
/// to nobody by name, and returns the record as it then is.
pub fn assign_todo_at(store: &mut Store, id: &str, name: Option<&str>, now: Timestamp) -> (r:
    Result<Todo, StoreError>)
    ensures
        final(store).skipped_count() == old(store).skipped_count(),
        match find_spec(old(store)@, id@) {
            Ok(i) => {
                let fields = assigned_to(
                    old(store)@[i].frontmatter,
                    slice_text(name),
                    now,
                );
                &&& r matches Ok(t) && t@ == with_fields(old(store)@[i], fields)
                &&& final(store)@ == old(store)@.update(i, with_fields(old(store)@[i], fields))
            },
            Err(e) => r matches Err(err) && err@ == e && final(store)@ == old(store)@,
        },
{
    match store.find_by_id(id) {
        Ok(todo) => {
            let mut todo = todo;
            todo.frontmatter.assigned = Some(
                match name {
                    Some(n) => n.to_owned(),
                    None => String::new(),
                },
            );
            if todo.frontmatter.assigned_at.is_none() {
                todo.frontmatter.assigned_at = Some(now);
            }
            change_fields(store, id, todo)
        },
        Err(e) => Err(e),
    }
}

/// Takes the assignment from the one record whose id begins with `id`, and
/// returns the record as it then is.
pub fn unassign_todo(store: &mut Store, id: &str) -> (r: Result<Todo, StoreError>)
    ensures
        final(store).skipped_count() == old(store).skipped_count(),
        match find_spec(old(store)@, id@) {
            Ok(i) => {
                &&& r matches Ok(t) && t@ == with_fields(
                    old(store)@[i],
                    unassigned(old(store)@[i].frontmatter),
                )
                &&& final(store)@ == old(store)@.update(
                    i,
                    with_fields(old(store)@[i], unassigned(old(store)@[i].frontmatter)),
                )
            },
            Err(e) => r matches Err(err) && err@ == e && final(store)@ == old(store)@,
        },
{
    match store.find_by_id(id) {
        Ok(todo) => {
            let mut todo = todo;
            todo.frontmatter.assigned = None;
            todo.frontmatter.assigned_at = None;
            change_fields(store, id, todo)
        },
        Err(e) => Err(e),
    }
}

/// The cache `after` is the cache `before` with the record at `i` marked as
/// done at `now`, and `t` is that record.
pub open spec fn marks_done(
    before: Seq<TodoView>,
    after: Seq<TodoView>,
    i: int,
    t: TodoView,
    now: Timestamp,
) -> bool {
    &&& t == with_fields(before[i], marked_done(before[i].frontmatter, now))
    &&& after == before.update(i, t)
}

/// The cache `after` is the cache `before` with the record at `i` assigned
/// at `now`, and `t` is that record.
pub open spec fn assigns(
    before: Seq<TodoView>,
    after: Seq<TodoView>,
    i: int,
    t: TodoView,
    name: Option<Seq<char>>,
    now: Timestamp,
) -> bool {
    &&& t == with_fields(before[i], assigned_to(before[i].frontmatter, name, now))
    &&& after == before.update(i, t)
}

/// Marks the one record whose id begins with `id` as done and returns the
/// record as it then is. The clock is read only where the record has no time
/// at which it was done: that time is then the one of the clock.
pub fn mark_done(store: &mut Store, id: &str) -> (r: Result<Todo, OpsError>)
    ensures
        final(store).skipped_count() == old(store).skipped_count(),
        match find_spec(old(store)@, id@) {
            Ok(i) => match r {
                Ok(t) => (exists|now: Timestamp|
                    (old(store)@[i].frontmatter.done_at is None ==> now.in_range())
                        && #[trigger] marks_done(old(store)@, final(store)@, i, t@, now)),
                Err(OpsError::Clock) => old(store)@[i].frontmatter.done_at is None && final(store)@ == old(store)@,
                Err(_) => false,
            },
            Err(e) => r matches Err(OpsError::Store(err)) && err@ == e && final(store)@ == old(store)@,
        },
{
    let found = match store.find_by_id(id) {
        Ok(todo) => todo,
        Err(e) => {
            return Err(OpsError::Store(e));
        },
    };
    let now = match found.frontmatter.done_at {
        Some(at) => at,
        None => match local_now() {
            Some(now) => now,
            None => {
                return Err(OpsError::Clock);
            },
        },
    };
    match mark_done_at(store, id, now) {
        Ok(t) => {
            assert(marks_done(old(store)@, store@, find_spec(old(store)@, id@)->Ok_0, t@, now));
            Ok(t)
        },
        Err(e) => Err(OpsError::Store(e)),
    }
}

/// Assigns the one record whose id begins with `id`, to `name` or to nobody
/// by name, and returns the record as it then is. The clock is read only
/// where the record has no time at which it was assigned: that time is then
/// the one of the clock.
pub fn assign_todo(store: &mut Store, id: &str, name: Option<&str>) -> (r: Result<Todo, OpsError>)
    ensures
        final(store).skipped_count() == old(store).skipped_count(),
        match find_spec(old(store)@, id@) {
            Ok(i) => match r {
                Ok(t) => (exists|now: Timestamp|
                    (old(store)@[i].frontmatter.assigned_at is None ==> now.in_range())
                        && #[trigger] assigns(
                        old(store)@,
                        final(store)@,
                        i,
                        t@,
                        slice_text(name),
                        now,
                    )),
                Err(OpsError::Clock) => old(store)@[i].frontmatter.assigned_at is None && final(store)@ == old(store)@,
                Err(_) => false,
            },
            Err(e) => r matches Err(OpsError::Store(err)) && err@ == e && final(store)@ == old(store)@,
        },
{
    let found = match store.find_by_id(id) {
        Ok(todo) => todo,
        Err(e) => {
            return Err(OpsError::Store(e));
        },
    };
    let now = match found.frontmatter.assigned_at {
        Some(at) => at,
        None => match local_now() {
            Some(now) => now,
            None => {
                return Err(OpsError::Clock);
            },
        },
    };
    match assign_todo_at(store, id, name, now) {
        Ok(t) => {
            assert(assigns(
                old(store)@,
                store@,
                find_spec(old(store)@, id@)->Ok_0,
                t@,
                slice_text(name),
                now,
            ));
            Ok(t)
        },
        Err(e) => Err(OpsError::Store(e)),
    }
}

/// What stands between a request to delete a record and the deletion.
#[derive(Debug)]
pub enum DeleteStep {
    /// The user is to be asked; `title` is the title of the record.
    Ask { id: String, title: String },
    /// Nothing: the record with the id `id` is to be deleted.
    Proceed { id: String },
}

/// Decides how a request to delete the one record whose id begins with `id`
/// goes on: at a terminal the user is asked, elsewhere the request has to
/// be forced.
pub fn delete_todo(store: &Store, id: &str, interactive: bool, force: bool) -> (r: Result<
    DeleteStep,
    OpsError,
>)
    ensures
        match find_spec(store@, id@) {
            Ok(i) => if interactive {
                r matches Ok(DeleteStep::Ask { id: found, title }) && found@ == store@[i].id
                    && title@ == store@[i].frontmatter.title
            } else if force {
                r matches Ok(DeleteStep::Proceed { id: found }) && found@ == store@[i].id
            } else {
                r matches Err(OpsError::ForceRequired)
            },
            Err(e) => r matches Err(OpsError::Store(err)) && err@ == e,
        },
{
    let todo = match store.find_by_id(id) {
        Ok(todo) => todo,
        Err(e) => {
            return Err(OpsError::Store(e));
        },
    };
    if interactive {
        Ok(DeleteStep::Ask { id: todo.id, title: todo.frontmatter.title })
    } else if force {
        Ok(DeleteStep::Proceed { id: todo.id })
    } else {
        Err(OpsError::ForceRequired)
    }
}

/// An answer says yes where it reads `y` or `Y`, white space around it
/// aside.
pub open spec fn says_yes(line: Seq<char>) -> bool {
    trimmed(line) == seq!['y'] || trimmed(line) == seq!['Y']
}

/// Whether the answer `line` says yes.
pub fn answer_confirms(line: &str) -> (r: bool)
    ensures
        r == says_yes(line@),
{
    let answer = trim(line);
    proof {
        reveal_strlit("y");
        reveal_strlit("Y");
        assert("y"@ =~= seq!['y']);
        assert("Y"@ =~= seq!['Y']);
    }
    same_text(answer.as_str(), "y") || same_text(answer.as_str(), "Y")
}

/// Ends a request to delete: the one record whose id begins with `id` is
/// deleted and returned, unless the user was asked and `answer` does not say
/// yes; then nothing changes.
pub fn finish_delete(store: &mut Store, id: &str, answer: Option<&str>) -> (r: Result<
    Option<Todo>,
    StoreError,
>)
    ensures
        final(store).skipped_count() == old(store).skipped_count(),
        if answer matches Some(line) && !says_yes(line@) {
            r matches Ok(None) && final(store)@ == old(store)@
        } else {
            match find_spec(old(store)@, id@) {
                Ok(i) => r matches Ok(Some(t)) && t@ == old(store)@[i] && final(store)@ == old(store)@.remove(i),
                Err(e) => r matches Err(err) && err@ == e && final(store)@ == old(store)@,
            }
        },
{
    match answer {
        Some(line) => {
            if !answer_confirms(line) {
                return Ok(None);
            }
        },
        None => {},
    }
    match store.delete(id) {
        Ok(todo) => Ok(Some(todo)),
        Err(e) => Err(e),
    }
}

/// How a request to edit a record goes on.
#[derive(Debug)]
pub enum EditStep {
    /// The record has its new body; it is to be written.
    Saved(Todo),
    /// The file `filename` of the record with the id `id` is to be opened
    /// in the editor, and the record refreshed from it.
    OpenEditor { id: String, filename: String },
}

/// The body that an edit sets: none where the text is empty.
pub open spec fn edited_body(text: Seq<char>) -> Option<Seq<char>> {
    if text.len() == 0 {
        None
    } else {
        Some(text)
    }
}

/// Edits the one record whose id begins with `id`. With a new body the
/// record gets it at once. Without one the editor is asked for, which is
/// possible at a terminal only.
pub fn edit_todo(store: &mut Store, id: &str, new_body: Option<&str>, interactive: bool) -> (r:
    Result<EditStep, OpsError>)
    ensures
        final(store).skipped_count() == old(store).skipped_count(),
        match new_body {
            Some(b) => match find_spec(old(store)@, id@) {
                Ok(i) => {
                    &&& r matches Ok(EditStep::Saved(t)) && t@ == (TodoView {
                        body: edited_body(b@),
                        ..old(store)@[i]
                    })
                    &&& final(store)@ == old(store)@.update(
                        i,
                        TodoView { body: edited_body(b@), ..old(store)@[i] },
                    )
                },
                Err(e) => r matches Err(OpsError::Store(err)) && err@ == e && final(store)@
                    == old(store)@,
            },
            None => {
                &&& final(store)@ == old(store)@
                &&& if !interactive {
                    r matches Err(OpsError::NoEditor)
                } else {
                    match find_spec(old(store)@, id@) {
                        Ok(i) => r matches Ok(EditStep::OpenEditor { id: found, filename })
                            && found@ == old(store)@[i].id && filename@ == old(store)@[i].filename,
                        Err(e) => r matches Err(OpsError::Store(err)) && err@ == e,
                    }
                }
            },
        },
{
    match new_body {
        Some(b) => {
            let mut todo = match store.find_by_id(id) {
                Ok(todo) => todo,
                Err(e) => {
                    return Err(OpsError::Store(e));
                },
            };
            todo.body = if b.is_empty() {
                None
            } else {
                Some(b.to_owned())
            };
            match change_fields(store, id, todo) {
                Ok(t) => Ok(EditStep::Saved(t)),
                Err(e) => Err(OpsError::Store(e)),
            }
        },
        None => {
            if !interactive {
                return Err(OpsError::NoEditor);
            }
            match store.find_by_id(id) {
                Ok(todo) => Ok(EditStep::OpenEditor { id: todo.id, filename: todo.filename }),
                Err(e) => Err(OpsError::Store(e)),
            }
        },
    }
}

/// The editor to run: the first of `visual` and `editor` that is set and
/// not empty, else `vim`.
pub open spec fn editor_choice(visual: Option<Seq<char>>, editor: Option<Seq<char>>) -> Seq<char> {
    match visual {
        Some(v) if v.len() > 0 => v,
        _ => match editor {
            Some(e) if e.len() > 0 => e,
            _ => "vim"@,
        },
    }
}

/// The editor to run, given what the environment holds under `VISUAL` and
/// under `EDITOR`.
pub fn resolve_editor(visual: Option<&str>, editor: Option<&str>) -> (r: String)
    ensures
        r@ == editor_choice(slice_text(visual), slice_text(editor)),
{
    match visual {
        Some(v) => {
            if !v.is_empty() {
                return v.to_owned();
            }
        },
        None => {},
    }
    match editor {
        Some(e) => {
            if !e.is_empty() {
                return e.to_owned();
            }
        },
        None => {},
    }
    "vim".to_owned()
}

/// What a line of a list says of the assignment of a record.
pub open spec fn assigned_suffix(fm: FrontmatterView) -> Seq<char> {
    match fm.assigned {
        Some(name) => if name.len() > 0 {
            " (assigned: "@ + name + ")"@
        } else {
            " (assigned)"@
        },
        None => Seq::empty(),
    }
}

/// The line of a list for a record that is open, with its line end; in
/// colour the id is cyan and the assignment magenta.
pub open spec fn todo_line(t: TodoView, color: bool) -> Seq<char> {
    let suffix = assigned_suffix(t.frontmatter);
    if color {
        "\x1b[36m"@ + t.id + "\x1b[0m"@ + "  "@ + t.frontmatter.title + (if suffix.len() > 0 {
            "\x1b[35m"@ + suffix + "\x1b[0m"@
        } else {
            Seq::empty()
        }) + "\n"@
    } else {
        t.id + "  "@ + t.frontmatter.title + suffix + "\n"@
    }
}

/// The line of a list for a record that is done, with its line end; in
/// colour the whole line is dim.
pub open spec fn done_todo_line(t: TodoView, color: bool) -> Seq<char> {
    let suffix = assigned_suffix(t.frontmatter);
    if color {
        "\x1b[2m"@ + t.id + "  [done] "@ + t.frontmatter.title + suffix + "\x1b[0m"@ + "\n"@
    } else {
        t.id + "  [done] "@ + t.frontmatter.title + suffix + "\n"@
    }
}

/// The list of the records of `s`, a line for each: all of them, or those
/// that are open.
pub open spec fn listing(s: Seq<TodoView>, all: bool, color: bool) -> Seq<char>
    decreases s.len(),
{
    if s.len() == 0 {
        Seq::empty()
    } else {
        let before = listing(s.drop_last(), all, color);
        let t = s.last();
        if t.is_open() {
            before + todo_line(t, color)
        } else if all {
            before + done_todo_line(t, color)
        } else {
            before
        }
    }
}

fn push_assigned_suffix(out: &mut String, todo: &Todo)
    ensures
        final(out)@ == old(out)@ + assigned_suffix(todo@.frontmatter),
{
    match &todo.frontmatter.assigned {
        Some(name) => {
            if !name.as_str().is_empty() {
                out.append(" (assigned: ");
                out.append(name.as_str());
                out.append(")");
                assert(out@ =~= old(out)@ + assigned_suffix(todo@.frontmatter));
            } else {
                out.append(" (assigned)");
            }
        },
        None => {
            assert(out@ =~= old(out)@ + Seq::<char>::empty());
        },
    }
}

/// Appends the line for the open record `todo` to `out`.
fn write_todo(out: &mut String, todo: &Todo, color: bool)
    ensures
        final(out)@ == old(out)@ + todo_line(todo@, color),
{
    if color {
        out.append("\x1b[36m");
        out.append(todo.id.as_str());
        out.append("\x1b[0m");
        out.append("  ");
        out.append(todo.title());
        proof {
            // An assignment says something, named or not.
            reveal_strlit(" (assigned: ");
            reveal_strlit(" (assigned)");
        }
        if todo.is_assigned() {
            let ghost before = out@;
            out.append("\x1b[35m");
            push_assigned_suffix(out, todo);
            out.append("\x1b[0m");
            assert(out@ =~= before + ("\x1b[35m"@ + assigned_suffix(todo@.frontmatter)
                + "\x1b[0m"@));
        }
        out.append("\n");
        assert(out@ =~= old(out)@ + todo_line(todo@, color));
    } else {
        out.append(todo.id.as_str());
        out.append("  ");
        out.append(todo.title());
        push_assigned_suffix(out, todo);
        out.append("\n");
        assert(out@ =~= old(out)@ + todo_line(todo@, color));
    }
}

/// Appends the line for the record `todo`, which is done, to `out`.
fn write_done_todo(out: &mut String, todo: &Todo, color: bool)
    ensures
        final(out)@ == old(out)@ + done_todo_line(todo@, color),
{
    if color {
        out.append("\x1b[2m");
    }
    out.append(todo.id.as_str());
    out.append("  [done] ");
    out.append(todo.title());
    push_assigned_suffix(out, todo);
    if color {
        out.append("\x1b[0m");
    }
    out.append("\n");
    assert(out@ =~= old(out)@ + done_todo_line(todo@, color));
}

/// The list of the records of the store as text, a line for each: all of
/// them where `all` is set, else those that are open. `color` asks for the
/// colours of a terminal.
pub fn list_todos(store: &Store, all: bool, color: bool) -> (out: String)
    ensures
        out@ == listing(store@, all, color),
{
    let records = store.list_all();
    let mut out = String::new();
    let mut i: usize = 0;
    while i < records.len()
        invariant
            i <= records.len(),
            crate::storage::views(records@) == store@,
            out@ == listing(store@.take(i as int), all, color),
        decreases records.len() - i,
    {
        proof {
            assert(store@.take(i + 1).drop_last() == store@.take(i as int));
            assert(store@.take(i + 1).last() == records@[i as int]@);
        }
        if records[i].is_open() {
            write_todo(&mut out, &records[i], color);
        } else if all {
            write_done_todo(&mut out, &records[i], color);
        }
        i += 1;
    }
    assert(store@.take(records.len() as int) == store@);
    out
}

} // verus!
