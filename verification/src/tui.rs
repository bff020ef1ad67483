//! The state of the interactive session: the records shown, the search that
//! filters them, the row under the cursor, and what each key does.
use vstd::prelude::*;
use crate::ops::{
    create_todo, creates, creates_now, fresh_fields, mark_done, marks_done, reopen_todo, reopened, with_fields, OpsError,
};
use crate::storage::{
    filename_for, find_spec, insertion_point, lemma_inserted_is_found, new_record, no_id_taken,
    open_only, position_of, ref_views, views, Store, StoreError, StoreErrorView,
};
use crate::text::{lowercase, pop_char, push_char, to_lowercase, trim, trimmed};
use crate::todo::{text_of, Frontmatter, Status, Timestamp, Todo, TodoView};

verus! {

/// The greatest height of the surface that the session draws on, in rows.
pub const MAX_HEIGHT: u16 = 20;

/// The characters of `q` stand in `t` in their order, though not
/// necessarily side by side: going through `t` from its start, each
/// character of `q` is met in turn.
pub open spec fn is_subsequence(q: Seq<char>, t: Seq<char>) -> bool
    decreases t.len(),
{
    if q.len() == 0 {
        true
    } else if t.len() == 0 {
        false
    } else if q[0] == t[0] {
        is_subsequence(q.drop_first(), t.drop_first())
    } else {
        is_subsequence(q, t.drop_first())
    }
}

/// A query matches a text where the characters of the query in lowercase
/// stand in the text in lowercase in their order.
pub open spec fn fuzzy_spec(query: Seq<char>, text: Seq<char>) -> bool {
    is_subsequence(lowercase(query), lowercase(text))
}

/// The empty query matches every text.
pub proof fn lemma_empty_query_matches(text: Seq<char>)
    ensures
        fuzzy_spec(Seq::empty(), text),
{
}

/// `at` says where in `t` each character of `q` stands: one place for each,
/// the places rising.
pub open spec fn embeds(q: Seq<char>, t: Seq<char>, at: Seq<int>) -> bool {
    &&& at.len() == q.len()
    &&& forall|k: int| 0 <= k < q.len() ==> 0 <= #[trigger] at[k] < t.len() && q[k] == t[at[k]]
    &&& forall|k: int, l: int| 0 <= k < l < q.len() ==> at[k] < at[l]
}

/// Where `q` is a subsequence of `t`, there are rising places in `t` at
/// which the characters of `q` stand.
pub proof fn lemma_subsequence_embeds(q: Seq<char>, t: Seq<char>) -> (at: Seq<int>)
    requires
        is_subsequence(q, t),
    ensures
        embeds(q, t, at),
    decreases t.len(),
{
    if q.len() == 0 {
        Seq::empty()
    } else if q[0] == t[0] {
        let rest = lemma_subsequence_embeds(q.drop_first(), t.drop_first());
        let at = Seq::new(q.len(), |k: int| if k == 0 { 0 } else { rest[k - 1] + 1 });
        assert forall|k: int| 0 <= k < q.len() implies 0 <= #[trigger] at[k] < t.len() && q[k]
            == t[at[k]] by {
            if k > 0 {
                assert(q.drop_first()[k - 1] == q[k]);
                assert(t.drop_first()[rest[k - 1]] == t[rest[k - 1] + 1]);
            }
        }
        assert forall|k: int, l: int| 0 <= k < l < q.len() implies at[k] < at[l] by {
            if k > 0 {
                assert(rest[k - 1] < rest[l - 1]);
            } else {
                assert(0 <= rest[l - 1]);
            }
        }
        at
    } else {
        let rest = lemma_subsequence_embeds(q, t.drop_first());
        let at = Seq::new(q.len(), |k: int| rest[k] + 1);
        assert forall|k: int| 0 <= k < q.len() implies 0 <= #[trigger] at[k] < t.len() && q[k]
            == t[at[k]] by {
            assert(0 <= rest[k]);
            assert(t.drop_first()[rest[k]] == t[rest[k] + 1]);
        }
        assert forall|k: int, l: int| 0 <= k < l < q.len() implies at[k] < at[l] by {
            assert(rest[k] < rest[l]);
        }
        at
    }
}

/// Where the characters of `q` stand in `t` at rising places, `q` is a
/// subsequence of `t`.
pub proof fn lemma_embedding_is_subsequence(q: Seq<char>, t: Seq<char>, at: Seq<int>)
    requires
        embeds(q, t, at),
    ensures
        is_subsequence(q, t),
    decreases t.len(),
{
    if q.len() > 0 {
        assert(0 <= at[0] < t.len());
        if q[0] == t[0] {
            let rest = Seq::new((q.len() - 1) as nat, |k: int| at[k + 1] - 1);
            let (q1, t1) = (q.drop_first(), t.drop_first());
            assert forall|k: int| 0 <= k < q1.len() implies 0 <= #[trigger] rest[k] < t1.len()
                && q1[k] == t1[rest[k]] by {
                assert(at[0] < at[k + 1]);
                assert(0 <= at[k + 1] < t.len() && q[k + 1] == t[at[k + 1]]);
            }
            assert forall|k: int, l: int| 0 <= k < l < q1.len() implies rest[k] < rest[l] by {
                assert(at[k + 1] < at[l + 1]);
            }
            lemma_embedding_is_subsequence(q1, t1, rest);
        } else {
            let rest = Seq::new(q.len(), |k: int| at[k] - 1);
            let t1 = t.drop_first();
            assert forall|k: int| 0 <= k < q.len() implies 0 <= #[trigger] rest[k] < t1.len()
                && q[k] == t1[rest[k]] by {
                assert(0 <= at[k] < t.len() && q[k] == t[at[k]]);
                if k > 0 {
                    assert(at[0] < at[k]);
                } else {
                    assert(at[0] != 0);
                }
            }
            assert forall|k: int, l: int| 0 <= k < l < q.len() implies rest[k] < rest[l] by {
                assert(at[k] < at[l]);
            }
            lemma_embedding_is_subsequence(q, t1, rest);
        }
    }
}

/// Whether the characters of `q` stand in `t` in their order.
pub fn subsequence_of(q: &Vec<char>, t: &Vec<char>) -> (r: bool)
    ensures
        r == is_subsequence(q@, t@),
{
    let mut i: usize = 0;
    let mut j: usize = 0;
    assert(q@.skip(0) == q@ && t@.skip(0) == t@);
    while i < q.len() && j < t.len()
        invariant
            i <= q.len(),
            j <= t.len(),
            is_subsequence(q@, t@) == is_subsequence(q@.skip(i as int), t@.skip(j as int)),
        decreases t.len() - j,
    {
        proof {
            assert(q@.skip(i as int).drop_first() == q@.skip(i + 1));
            assert(t@.skip(j as int).drop_first() == t@.skip(j + 1));
            assert(q@.skip(i as int)[0] == q@[i as int]);
            assert(t@.skip(j as int)[0] == t@[j as int]);
        }
        if q[i] == t[j] {
            i += 1;
        }
        j += 1;
    }
    i == q.len()
}

/// Whether `query` matches `text`: whether the characters of the query
/// stand in the text in their order, the case of letters aside.
pub fn fuzzy_match(query: &str, text: &str) -> (r: bool)
    ensures
        r == fuzzy_spec(query@, text@),
{
    let q = to_lowercase(query);
    let t = to_lowercase(text);
    subsequence_of(&q, &t)
}

/// A record passes the search `input` where `input` matches its title, or
/// where its id begins with `input`, the case of letters aside.
pub open spec fn passes(input: Seq<char>, t: TodoView) -> bool {
    lowercase(input).is_prefix_of(lowercase(t.id)) || fuzzy_spec(input, t.frontmatter.title)
}

/// Every record passes the empty search.
pub proof fn lemma_empty_input_passes(t: TodoView)
    ensures
        passes(Seq::empty(), t),
{
}

/// The places in `todos` of the records that pass the search `input`, in
/// rising order.
pub open spec fn passing(todos: Seq<TodoView>, input: Seq<char>) -> Seq<int>
    decreases todos.len(),
{
    if todos.len() == 0 {
        Seq::empty()
    } else {
        let before = passing(todos.drop_last(), input);
        if passes(input, todos.last()) {
            before.push(todos.len() - 1)
        } else {
            before
        }
    }
}

/// `passing` lists every place of a record that passes, each once, in
/// rising order, and no other place.
pub proof fn lemma_passing(todos: Seq<TodoView>, input: Seq<char>)
    ensures
        passing(todos, input).len() <= todos.len(),
        forall|k: int|
            0 <= k < passing(todos, input).len() ==> 0 <= (#[trigger] passing(todos, input)[k])
                < todos.len() && passes(input, todos[passing(todos, input)[k]]),
        forall|k: int, l: int|
            0 <= k < l < passing(todos, input).len() ==> passing(todos, input)[k] < passing(
                todos,
                input,
            )[l],
        forall|i: int|
            0 <= i < todos.len() && passes(input, #[trigger] todos[i]) ==> passing(
                todos,
                input,
            ).contains(i),
    decreases todos.len(),
{
    if todos.len() > 0 {
        let front = todos.drop_last();
        lemma_passing(front, input);
        let before = passing(front, input);
        let m = passing(todos, input);
        assert forall|k: int| 0 <= k < m.len() implies 0 <= (#[trigger] m[k]) < todos.len()
            && passes(input, todos[m[k]]) by {
            if k < before.len() {
                assert(m[k] == before[k]);
                assert(front[before[k]] == todos[before[k]]);
            }
        }
        assert forall|k: int, l: int| 0 <= k < l < m.len() implies m[k] < m[l] by {
            assert(m[k] == before[k]);
            if l < before.len() {
                assert(m[l] == before[l]);
            }
        }
        assert forall|i: int|
            0 <= i < todos.len() && passes(input, #[trigger] todos[i]) implies m.contains(i) by {
            if i < front.len() {
                assert(front[i] == todos[i]);
                assert(before.contains(i));
                let k = choose|k: int| 0 <= k < before.len() && before[k] == i;
                assert(m[k] == i);
            } else {
                assert(m[m.len() - 1] == i);
            }
        }
    }
}

/// The records of `s` that are assigned, or those that are not, in the
/// order of `s`.
pub open spec fn assigned_only(s: Seq<TodoView>, assigned: bool) -> Seq<TodoView>
    decreases s.len(),
{
    if s.len() == 0 {
        s
    } else if s.last().is_assigned() == assigned {
        assigned_only(s.drop_last(), assigned).push(s.last())
    } else {
        assigned_only(s.drop_last(), assigned)
    }
}

/// The records that the session shows: all of the store or those that are
/// open, first those that are not assigned, then those that are, each group
/// in the order of creation.
pub open spec fn shown(store: Seq<TodoView>, show_all: bool) -> Seq<TodoView> {
    let chosen = if show_all {
        store
    } else {
        open_only(store)
    };
    assigned_only(chosen, false) + assigned_only(chosen, true)
}

/// Whether the characters of `p` begin `s`.
fn begins(s: &Vec<char>, p: &Vec<char>) -> (r: bool)
    ensures
        r == p@.is_prefix_of(s@),
{
    if p.len() > s.len() {
        return false;
    }
    let mut i: usize = 0;
    while i < p.len()
        invariant
            i <= p.len() <= s.len(),
            forall|k: int| 0 <= k < i ==> p@[k] == s@[k],
        decreases p.len() - i,
    {
        if p[i] != s[i] {
            return false;
        }
        i += 1;
    }
    assert(p@ =~= s@.subrange(0, p@.len() as int));
    true
}

/// Whether the record `todo` passes the search `input`.
pub fn passes_search(input: &str, todo: &Todo) -> (r: bool)
    ensures
        r == passes(input@, todo@),
{
    let wanted = to_lowercase(input);
    let id = to_lowercase(todo.id.as_str());
    begins(&id, &wanted) || subsequence_of(&wanted, &to_lowercase(todo.title()))
}

/// The places in `todos` of the records that pass the search `input`.
pub fn compute_filtered(todos: &Vec<Todo>, input: &str) -> (filtered: Vec<usize>)
    ensures
        filtered@.len() == passing(views(todos@), input@).len(),
        forall|k: int|
            0 <= k < filtered@.len() ==> (#[trigger] filtered@[k]) as int == passing(
                views(todos@),
                input@,
            )[k],
        forall|k: int| 0 <= k < filtered@.len() ==> (#[trigger] filtered@[k]) < todos.len(),
        filtered@.len() <= todos.len(),
{
    let mut filtered: Vec<usize> = Vec::new();
    let ghost all = views(todos@);
    let mut i: usize = 0;
    while i < todos.len()
        invariant
            i <= todos.len(),
            all == views(todos@),
            filtered@.len() == passing(all.take(i as int), input@).len(),
            forall|k: int|
                0 <= k < filtered@.len() ==> (#[trigger] filtered@[k]) as int == passing(
                    all.take(i as int),
                    input@,
                )[k],
            forall|k: int| 0 <= k < filtered@.len() ==> (#[trigger] filtered@[k]) < i,
            filtered@.len() <= i,
        decreases todos.len() - i,
    {
        proof {
            assert(all.take(i + 1).drop_last() == all.take(i as int));
            assert(all.take(i + 1).last() == todos@[i as int]@);
        }
        if passes_search(input, &todos[i]) {
            filtered.push(i);
        }
        i += 1;
    }
    assert(all.take(todos.len() as int) == all);
    filtered
}

/// Appends to `out` the records of `from` that are assigned, or those that
/// are not.
fn push_group(out: &mut Vec<Todo>, from: &Vec<&Todo>, assigned: bool)
    ensures
        views(final(out)@) == views(old(out)@) + assigned_only(ref_views(from@), assigned),
{
    let ghost start = views(out@);
    let ghost all = ref_views(from@);
    let mut i: usize = 0;
    assert(views(out@) =~= start + assigned_only(all.take(0), assigned));
    while i < from.len()
        invariant
            i <= from.len(),
            all == ref_views(from@),
            views(out@) == start + assigned_only(all.take(i as int), assigned),
        decreases from.len() - i,
    {
        proof {
            assert(all.take(i + 1).drop_last() == all.take(i as int));
            assert(all.take(i + 1).last() == from@[i as int]@);
        }
        if from[i].is_assigned() == assigned {
            let ghost before = views(out@);
            out.push(from[i].clone());
            assert(views(out@) =~= before.push(from@[i as int]@));
            assert(views(out@) =~= start + assigned_only(all.take(i + 1), assigned));
        }
        i += 1;
    }
    assert(all.take(from.len() as int) == all);
}

/// The records of `store`, each pointed at.
fn all_of(store: &Store) -> (r: Vec<&Todo>)
    ensures
        ref_views(r@) == store@,
{
    let records = store.list_all();
    let mut out: Vec<&Todo> = Vec::new();
    let mut i: usize = 0;
    while i < records.len()
        invariant
            i <= records.len(),
            views(records@) == store@,
            ref_views(out@) == store@.take(i as int),
        decreases records.len() - i,
    {
        let ghost before = ref_views(out@);
        out.push(&records[i]);
        assert(views(records@)[i as int] == records@[i as int]@);
        assert(ref_views(out@) =~= before.push(records@[i as int]@));
        assert(ref_views(out@) =~= store@.take(i + 1));
        i += 1;
    }
    assert(store@.take(records.len() as int) == store@);
    out
}

/// The records that the session shows of `store`.
pub fn shown_records(store: &Store, show_all: bool) -> (r: Vec<Todo>)
    ensures
        views(r@) == shown(store@, show_all),
{
    let chosen = if show_all {
        all_of(store)
    } else {
        store.list_open()
    };
    let mut out: Vec<Todo> = Vec::new();
    push_group(&mut out, &chosen, false);
    push_group(&mut out, &chosen, true);
    assert(views(out@) =~= shown(store@, show_all));
    out
}

/// What the session is busy with.
#[derive(Debug)]
pub enum Mode {
    /// Searching, moving, changing records.
    Normal,
    /// Waiting for the answer to "delete this record?". The id and the
    /// title are those that the record had when the question was put.
    ConfirmDelete { id: String, title: String },
}

/// What a `Mode` holds, with texts as sequences of characters.
pub enum ModeView {
    Normal,
    ConfirmDelete { id: Seq<char>, title: Seq<char> },
}

impl View for Mode {
    type V = ModeView;

    open spec fn view(&self) -> ModeView {
        match *self {
            Mode::Normal => ModeView::Normal,
            Mode::ConfirmDelete { id, title } => ModeView::ConfirmDelete {
                id: id@,
                title: title@,
            },
        }
    }
}

/// The state of the session as the contracts see it.
pub struct AppView {
    /// The records of the store.
    pub store: Seq<TodoView>,
    /// The records shown, as last taken from the store.
    pub todos: Seq<TodoView>,
    /// The row under the cursor, counted from the first row that the cursor
    /// can stand on.
    pub selected: Option<usize>,
    pub mode: ModeView,
    /// Whether records that are done are shown too.
    pub show_all: bool,
    /// The text typed: the search, and the title of a record to create.
    pub input: Seq<char>,
}

impl AppView {
    /// The places in `todos` of the records that pass the search.
    pub open spec fn filtered(self) -> Seq<int> {
        passing(self.todos, self.input)
    }

    /// A row "create" stands before the records where anything is typed.
    pub open spec fn has_create_line(self) -> bool {
        self.input.len() > 0
    }

    /// The row on which the records begin.
    pub open spec fn todo_start_index(self) -> int {
        if self.has_create_line() {
            1
        } else {
            0
        }
    }

    /// The number of rows that the cursor can stand on: the row "create",
    /// where there is one, and a row for each record that passes the search.
    pub open spec fn selectable_count(self) -> int {
        self.todo_start_index() + self.filtered().len()
    }

    /// The cursor stands on the row "create".
    pub open spec fn is_on_create_new(self) -> bool {
        self.has_create_line() && self.selected == Some(0usize)
    }

    /// The record under the cursor.
    pub open spec fn selected_todo(self) -> Option<TodoView> {
        match self.selected {
            Some(row) if self.todo_start_index() <= row < self.selectable_count() => Some(
                self.todos[self.filtered()[row - self.todo_start_index()]],
            ),
            _ => None,
        }
    }

    /// The cursor, where it stands on a row, stands on one that exists.
    pub open spec fn cursor_in_bounds(self) -> bool {
        self.selected matches Some(row) ==> row < self.selectable_count()
    }
}

/// The interactive session over a store.
pub struct App {
    store: Store,
    todos: Vec<Todo>,
    filtered: Vec<usize>,
    selected: Option<usize>,
    mode: Mode,
    show_all: bool,
    input: String,
}

impl View for App {
    type V = AppView;

    closed spec fn view(&self) -> AppView {
        AppView {
            store: self.store@,
            todos: views(self.todos@),
            selected: self.selected,
            mode: self.mode@,
            show_all: self.show_all,
            input: self.input@,
        }
    }
}

impl App {
    /// The state hangs together: the places kept are those of the records
    /// that pass the search, and the cursor stands on a row that exists or on
    /// none.
    pub closed spec fn wf(&self) -> bool {
        &&& self.filtered@.len() == passing(views(self.todos@), self.input@).len()
        &&& forall|k: int|
            0 <= k < self.filtered@.len() ==> (#[trigger] self.filtered@[k]) as int == passing(
                views(self.todos@),
                self.input@,
            )[k] && self.filtered@[k] < self.todos@.len()
        &&& self.selected matches Some(row) ==> row < (if self.input@.len() > 0 {
            1int
        } else {
            0int
        }) + self.filtered@.len()
    }

    /// A session over `store`: nothing typed, the open records shown, the
    /// cursor on the first of them.
    pub fn new(store: Store) -> (app: App)
        ensures
            app.wf(),
            app@.store == store@,
            app@.todos == shown(store@, false),
            app@.input.len() == 0,
            app@.mode == ModeView::Normal,
            !app@.show_all,
            app@.selected == if app@.selectable_count() > 0 {
                Some(0usize)
            } else {
                None
            },
            app@.cursor_in_bounds(),
    {
        let todos = shown_records(&store, false);
        let input = String::new();
        let filtered = compute_filtered(&todos, input.as_str());
        let selected = if filtered.len() > 0 {
            Some(0usize)
        } else {
            None
        };
        App { store, todos, filtered, selected, mode: Mode::Normal, show_all: false, input }
    }
}

/// A change to the text typed.
enum InputEdit {
    Push(char),
    Pop,
    Clear,
    Keep,
}

impl InputEdit {
    /// The text after the change.
    spec fn applied(self, input: Seq<char>) -> Seq<char> {
        match self {
            InputEdit::Push(c) => input.push(c),
            InputEdit::Pop => if input.len() > 0 {
                input.drop_last()
            } else {
                input
            },
            InputEdit::Clear => Seq::empty(),
            InputEdit::Keep => input,
        }
    }
}

/// The row of the cursor after the search has changed: the first row, where
/// there is a row.
pub open spec fn reset_row(count: int) -> Option<usize> {
    if count > 0 {
        Some(0usize)
    } else {
        None
    }
}

/// Changes the text typed, finds the records that pass the new search, and
/// puts the cursor on the first row.
fn refilter_parts(
    input: &mut String,
    filtered: &mut Vec<usize>,
    selected: &mut Option<usize>,
    todos: &Vec<Todo>,
    edit: InputEdit,
)
    ensures
        final(input)@ == edit.applied(old(input)@),
        final(filtered)@.len() == passing(views(todos@), final(input)@).len(),
        forall|k: int|
            0 <= k < final(filtered)@.len() ==> (#[trigger] final(filtered)@[k]) as int == passing(
                views(todos@),
                final(input)@,
            )[k] && final(filtered)@[k] < todos@.len(),
        *final(selected) == reset_row(
            (if final(input)@.len() > 0 {
                1int
            } else {
                0int
            }) + final(filtered)@.len(),
        ),
{
    match edit {
        InputEdit::Push(c) => {
            push_char(input, c);
        },
        InputEdit::Pop => {
            let _ = pop_char(input);
        },
        InputEdit::Clear => {
            *input = String::new();
        },
        InputEdit::Keep => {},
    }
    *filtered = compute_filtered(todos, input.as_str());
    *selected = if !input.as_str().is_empty() || filtered.len() > 0 {
        Some(0usize)
    } else {
        None
    };
}

impl App {
    /// Finds the records that pass the search anew and puts the cursor on
    /// the first row: the row "create" where there is one, else the first
    /// record that passes, else no row.
    pub fn refilter(&mut self)
        requires
            old(self).wf(),
        ensures
            final(self).wf(),
            final(self)@ == (AppView {
                selected: reset_row(old(self)@.selectable_count()),
                ..old(self)@
            }),
            final(self)@.cursor_in_bounds(),
    {
        refilter_parts(
            &mut self.input,
            &mut self.filtered,
            &mut self.selected,
            &self.todos,
            InputEdit::Keep,
        );
    }
}

/// The row of the cursor after the records were taken from the store
/// again: the row it stood on, or the last row where that one is gone, or
/// the first where it stood on none.
pub open spec fn clamped_row(selected: Option<usize>, count: int) -> Option<usize> {
    if count <= 0 {
        None
    } else {
        match selected {
            Some(row) => if row >= count {
                Some((count - 1) as usize)
            } else {
                Some(row)
            },
            None => Some(0usize),
        }
    }
}

/// The state after the records were taken from the store again: the search
/// stays, the cursor is clamped.
pub open spec fn reloaded(pre: AppView) -> AppView {
    let fresh = AppView { todos: shown(pre.store, pre.show_all), ..pre };
    AppView { selected: clamped_row(pre.selected, fresh.selectable_count()), ..fresh }
}

/// The height of the surface to draw on: a row for the search, a row for
/// each row that the cursor can stand on, two for the border and one for the
/// help, but no more than `MAX_HEIGHT` and one less than the terminal has.
pub open spec fn viewport_height_spec(count: int, terminal_rows: u16) -> int {
    let room = if terminal_rows >= 1 {
        terminal_rows - 1
    } else {
        0
    };
    let cap = if room < MAX_HEIGHT {
        room
    } else {
        MAX_HEIGHT as int
    };
    if 1 + count + 3 < cap {
        1 + count + 3
    } else {
        cap
    }
}

/// Takes the records from the store and clamps the cursor.
fn reload_parts(
    todos: &mut Vec<Todo>,
    filtered: &mut Vec<usize>,
    selected: &mut Option<usize>,
    input: &str,
    store: &Store,
    show_all: bool,
)
    ensures
        views(final(todos)@) == shown(store@, show_all),
        final(filtered)@.len() == passing(views(final(todos)@), input@).len(),
        forall|k: int|
            0 <= k < final(filtered)@.len() ==> (#[trigger] final(filtered)@[k]) as int == passing(
                views(final(todos)@),
                input@,
            )[k] && final(filtered)@[k] < final(todos)@.len(),
        *final(selected) == clamped_row(
            *old(selected),
            (if input@.len() > 0 {
                1int
            } else {
                0int
            }) + final(filtered)@.len(),
        ),
{
    *todos = shown_records(store, show_all);
    *filtered = compute_filtered(todos, input);
    let create = !input.is_empty();
    let len = filtered.len();
    if !create && len == 0 {
        *selected = None;
    } else {
        match *selected {
            Some(row) => {
                if create {
                    if row >= 1 && row - 1 >= len {
                        *selected = Some(len);
                    }
                } else if row >= len {
                    *selected = Some(len - 1);
                }
            },
            None => {
                *selected = Some(0);
            },
        }
    }
}

impl App {
    /// The store under the session.
    pub fn store(&self) -> (r: &Store)
        ensures
            r@ == self@.store,
    {
        &self.store
    }

    /// Ends the session and gives the store back.
    pub fn into_store(self) -> (r: Store)
        ensures
            r@ == self@.store,
    {
        self.store
    }

    /// The text typed.
    pub fn input(&self) -> (r: &str)
        ensures
            r@ == self@.input,
    {
        self.input.as_str()
    }

    /// The records shown, as last taken from the store.
    pub fn todos(&self) -> (r: &[Todo])
        ensures
            views(r@) == self@.todos,
    {
        self.todos.as_slice()
    }

    /// The places in `todos` of the records that pass the search.
    pub fn filtered(&self) -> (r: &[usize])
        requires
            self.wf(),
        ensures
            r@.len() == self@.filtered().len(),
            forall|k: int| 0 <= k < r@.len() ==> (#[trigger] r@[k]) as int == self@.filtered()[k],
            forall|k: int| 0 <= k < r@.len() ==> (#[trigger] r@[k]) < self@.todos.len(),
    {
        self.filtered.as_slice()
    }

    /// The row under the cursor.
    pub fn selected(&self) -> (r: Option<usize>)
        requires
            self.wf(),
        ensures
            r == self@.selected,
            self@.cursor_in_bounds(),
    {
        self.selected
    }

    /// What the session is busy with.
    pub fn mode(&self) -> (r: &Mode)
        ensures
            r@ == self@.mode,
    {
        &self.mode
    }

    /// Whether records that are done are shown too.
    pub fn show_all(&self) -> (r: bool)
        ensures
            r == self@.show_all,
    {
        self.show_all
    }

    /// Whether a row "create" is shown: whether anything is typed.
    pub fn has_create_line(&self) -> (r: bool)
        ensures
            r == self@.has_create_line(),
    {
        !self.input.as_str().is_empty()
    }

    /// The row on which the records begin.
    fn todo_start_index(&self) -> (r: usize)
        ensures
            r == self@.todo_start_index(),
    {
        if self.has_create_line() {
            1
        } else {
            0
        }
    }

    /// The record under the cursor, where the cursor stands on a record.
    pub fn selected_todo(&self) -> (r: Option<&Todo>)
        requires
            self.wf(),
        ensures
            match r {
                Some(t) => self@.selected_todo() == Some(t@),
                None => self@.selected_todo() is None,
            },
    {
        let start = self.todo_start_index();
        match self.selected {
            Some(row) => {
                if row >= start && row - start < self.filtered.len() {
                    let at = self.filtered[row - start];
                    Some(&self.todos[at])
                } else {
                    None
                }
            },
            None => None,
        }
    }

    /// Whether the cursor stands on the row "create".
    pub fn is_on_create_new(&self) -> (r: bool)
        requires
            self.wf(),
        ensures
            r == self@.is_on_create_new(),
    {
        self.has_create_line() && match self.selected {
            Some(row) => row == 0,
            None => false,
        }
    }

    /// The number of rows that the cursor can stand on, as far as a `usize`
    /// can count them.
    pub fn selectable_count(&self) -> (r: usize)
        requires
            self.wf(),
        ensures
            r == if self@.selectable_count() <= usize::MAX {
                self@.selectable_count()
            } else {
                usize::MAX as int
            },
    {
        self.todo_start_index().saturating_add(self.filtered.len())
    }

    /// Takes the records from the store again, shows those that pass the
    /// search, which stays as it is, and clamps the cursor into the rows
    /// that there are then.
    pub fn reload(&mut self)
        requires
            old(self).wf(),
        ensures
            final(self).wf(),
            final(self)@ == reloaded(old(self)@),
            final(self)@.cursor_in_bounds(),
    {
        reload_parts(
            &mut self.todos,
            &mut self.filtered,
            &mut self.selected,
            self.input.as_str(),
            &self.store,
            self.show_all,
        );
    }

    /// Moves the cursor one row down, unless it stands on the last row or
    /// on none.
    pub fn cursor_down(&mut self)
        requires
            old(self).wf(),
        ensures
            final(self).wf(),
            final(self)@ == (AppView {
                selected: match old(self)@.selected {
                    Some(row) if row + 1 < old(self)@.selectable_count() => Some(
                        (row + 1) as usize,
                    ),
                    other => other,
                },
                ..old(self)@
            }),
    {
        let start = self.todo_start_index();
        match self.selected {
            Some(row) => {
                if row < start {
                    if self.filtered.len() > 0 {
                        self.selected = Some(row + 1);
                    }
                } else if self.filtered.len() > 0 && row - start < self.filtered.len() - 1 {
                    self.selected = Some(row + 1);
                }
            },
            None => {},
        }
    }

    /// Moves the cursor one row up, unless it stands on the first row or on
    /// none.
    pub fn cursor_up(&mut self)
        requires
            old(self).wf(),
        ensures
            final(self).wf(),
            final(self)@ == (AppView {
                selected: match old(self)@.selected {
                    Some(row) if row > 0 => Some((row - 1) as usize),
                    other => other,
                },
                ..old(self)@
            }),
    {
        match self.selected {
            Some(row) => {
                if row > 0 {
                    self.selected = Some(row - 1);
                }
            },
            None => {},
        }
    }

    /// The height of the surface to draw on, in rows, in a terminal of
    /// `terminal_rows` rows.
    pub fn viewport_height(&self, terminal_rows: u16) -> (r: u16)
        requires
            self.wf(),
        ensures
            r == viewport_height_spec(self@.selectable_count(), terminal_rows),
            r <= MAX_HEIGHT,
    {
        let room: u16 = if terminal_rows >= 1 {
            terminal_rows - 1
        } else {
            0
        };
        let cap: u16 = if room < MAX_HEIGHT {
            room
        } else {
            MAX_HEIGHT
        };
        let start = self.todo_start_index();
        let len = self.filtered.len();
        if len >= MAX_HEIGHT as usize {
            cap
        } else {
            let wanted: u16 = (1 + start + len + 3) as u16;
            if wanted < cap {
                wanted
            } else {
                cap
            }
        }
    }
}

/// The keys that the session tells apart.
#[derive(Clone, Copy, PartialEq, Eq, Structural, Debug)]
pub enum KeyCode {
    Char(char),
    Backspace,
    Enter,
    Esc,
    Up,
    Down,
    /// Any other key.
    Other,
}

/// A key pressed, with or without the control key.
#[derive(Clone, Copy, PartialEq, Eq, Structural, Debug)]
pub struct KeyEvent {
    pub code: KeyCode,
    pub ctrl: bool,
}

/// What a key asks the session to do.
#[derive(Clone, Copy, PartialEq, Eq, Structural, Debug)]
pub enum KeyAction {
    Quit,
    ToggleShowAll,
    ToggleDone,
    AskDelete,
    Type(char),
    Erase,
    Enter,
    Escape,
    Down,
    Up,
    ConfirmDelete,
    CancelDelete,
    Nothing,
}

/// What a key asks for. Control with `q` or `c` ends the session whatever it
/// is busy with. While the session waits for the answer to "delete?", `y`
/// and Enter say yes and every other key says no. Else control with `a`, `d`
/// and `x` shows all, toggles done and asks to delete, and the plain keys
/// type, erase, enter, escape and move the cursor.
pub open spec fn key_action_spec(confirming: bool, key: KeyEvent) -> KeyAction {
    if key.ctrl && (key.code == KeyCode::Char('q') || key.code == KeyCode::Char('c')) {
        KeyAction::Quit
    } else if confirming {
        if key.code == KeyCode::Char('y') || key.code == KeyCode::Enter {
            KeyAction::ConfirmDelete
        } else {
            KeyAction::CancelDelete
        }
    } else if key.ctrl {
        if key.code == KeyCode::Char('a') {
            KeyAction::ToggleShowAll
        } else if key.code == KeyCode::Char('d') {
            KeyAction::ToggleDone
        } else if key.code == KeyCode::Char('x') {
            KeyAction::AskDelete
        } else {
            KeyAction::Nothing
        }
    } else {
        match key.code {
            KeyCode::Char(c) => KeyAction::Type(c),
            KeyCode::Backspace => KeyAction::Erase,
            KeyCode::Enter => KeyAction::Enter,
            KeyCode::Esc => KeyAction::Escape,
            KeyCode::Down => KeyAction::Down,
            KeyCode::Up => KeyAction::Up,
            KeyCode::Other => KeyAction::Nothing,
        }
    }
}

/// What the key `key` asks for; `confirming` says whether the session waits
/// for the answer to "delete?".
pub fn key_action(confirming: bool, key: KeyEvent) -> (action: KeyAction)
    ensures
        action == key_action_spec(confirming, key),
{
    let letter: Option<char> = match key.code {
        KeyCode::Char(c) => Some(c),
        _ => None,
    };
    if key.ctrl && (letter == Some('q') || letter == Some('c')) {
        KeyAction::Quit
    } else if confirming {
        let enter = match key.code {
            KeyCode::Enter => true,
            _ => false,
        };
        if letter == Some('y') || enter {
            KeyAction::ConfirmDelete
        } else {
            KeyAction::CancelDelete
        }
    } else if key.ctrl {
        if letter == Some('a') {
            KeyAction::ToggleShowAll
        } else if letter == Some('d') {
            KeyAction::ToggleDone
        } else if letter == Some('x') {
            KeyAction::AskDelete
        } else {
            KeyAction::Nothing
        }
    } else {
        match key.code {
            KeyCode::Char(c) => KeyAction::Type(c),
            KeyCode::Backspace => KeyAction::Erase,
            KeyCode::Enter => KeyAction::Enter,
            KeyCode::Esc => KeyAction::Escape,
            KeyCode::Down => KeyAction::Down,
            KeyCode::Up => KeyAction::Up,
            KeyCode::Other => KeyAction::Nothing,
        }
    }
}

/// What is left to do after a key: the work on files and on the terminal
/// that the session does not do itself.
#[derive(Debug)]
pub enum Outcome {
    /// Nothing.
    Continue,
    /// The session is over.
    Quit,
    /// The file of this record is to be written.
    Write(Todo),
    /// The file of this record is to be removed.
    Remove(Todo),
    /// The file `filename` of the record with the id `id` is to be opened
    /// in the editor, and the record refreshed from it.
    Edit { id: String, filename: String },
}

/// The state after the text typed has become `input`: the records that
/// pass are found anew, and the cursor stands on the first row.
pub open spec fn with_input(pre: AppView, input: Seq<char>) -> AppView {
    let typed = AppView { input, ..pre };
    AppView { selected: reset_row(typed.selectable_count()), ..typed }
}

impl App {
    /// Types the character `c` behind the text typed.
    pub fn type_char(&mut self, c: char)
        requires
            old(self).wf(),
        ensures
            final(self).wf(),
            final(self)@ == with_input(old(self)@, old(self)@.input.push(c)),
    {
        refilter_parts(
            &mut self.input,
            &mut self.filtered,
            &mut self.selected,
            &self.todos,
            InputEdit::Push(c),
        );
    }

    /// Erases the last character of the text typed, where there is one.
    pub fn erase_char(&mut self)
        requires
            old(self).wf(),
        ensures
            final(self).wf(),
            final(self)@ == with_input(
                old(self)@,
                if old(self)@.input.len() > 0 {
                    old(self)@.input.drop_last()
                } else {
                    old(self)@.input
                },
            ),
    {
        refilter_parts(
            &mut self.input,
            &mut self.filtered,
            &mut self.selected,
            &self.todos,
            InputEdit::Pop,
        );
    }

    /// Erases the text typed.
    pub fn clear_input(&mut self)
        requires
            old(self).wf(),
        ensures
            final(self).wf(),
            final(self)@ == with_input(old(self)@, Seq::empty()),
    {
        refilter_parts(
            &mut self.input,
            &mut self.filtered,
            &mut self.selected,
            &self.todos,
            InputEdit::Clear,
        );
    }

    /// Shows the records that are done too, or no longer, and takes the
    /// records from the store again.
    pub fn toggle_show_all(&mut self)
        requires
            old(self).wf(),
        ensures
            final(self).wf(),
            final(self)@ == reloaded(AppView { show_all: !old(self)@.show_all, ..old(self)@ }),
    {
        self.show_all = !self.show_all;
        self.reload();
    }

    /// Asks whether the record under the cursor is to be deleted: the
    /// session keeps the id and the title that the record has now, and waits
    /// for the answer. Where the cursor stands on no record, nothing changes.
    pub fn ask_delete(&mut self)
        requires
            old(self).wf(),
        ensures
            final(self).wf(),
            final(self)@ == (AppView {
                mode: match old(self)@.selected_todo() {
                    Some(t) => ModeView::ConfirmDelete { id: t.id, title: t.frontmatter.title },
                    None => old(self)@.mode,
                },
                ..old(self)@
            }),
    {
        let picked = match self.selected_todo() {
            Some(todo) => Some((todo.id.clone(), todo.frontmatter.title.clone())),
            None => None,
        };
        match picked {
            Some((id, title)) => {
                self.mode = Mode::ConfirmDelete { id, title };
            },
            None => {},
        }
    }

    /// Leaves the question "delete?" without deleting.
    pub fn cancel_delete(&mut self)
        requires
            old(self).wf(),
        ensures
            final(self).wf(),
            final(self)@ == (AppView { mode: ModeView::Normal, ..old(self)@ }),
    {
        self.mode = Mode::Normal;
    }
}

/// What toggling the record `t` does to the store and gives back. The
/// record is looked up in the store by its id. Where `t` is open it is
/// marked as done, else it is opened again; the record as it then is has to
/// be written.
pub open spec fn toggles(
    before: Seq<TodoView>,
    after: Seq<TodoView>,
    t: TodoView,
    r: Result<Outcome, OpsError>,
) -> bool {
    match find_spec(before, t.id) {
        Ok(i) => if t.is_open() {
            match r {
                Ok(Outcome::Write(rec)) => (exists|now: Timestamp|
                    (before[i].frontmatter.done_at is None ==> now.in_range())
                        && #[trigger] marks_done(before, after, i, rec@, now)),
                Err(OpsError::Clock) => before[i].frontmatter.done_at is None && after == before,
                _ => false,
            }
        } else {
            &&& r matches Ok(Outcome::Write(rec)) && rec@ == with_fields(
                before[i],
                reopened(before[i].frontmatter),
            )
            &&& after == before.update(i, with_fields(before[i], reopened(before[i].frontmatter)))
        },
        Err(e) => r matches Err(OpsError::Store(err)) && err@ == e && after == before,
    }
}

/// What Enter on the row "create" does to the store and gives back: a
/// record under the title `title` is created, and that record, as it stands
/// in the store, has to be written; or the store stays as it is. The store
/// turns the request down only where some record has an id that a draw can
/// give.
pub open spec fn creates_titled(
    before: Seq<TodoView>,
    after: Seq<TodoView>,
    title: Seq<char>,
    r: Result<Outcome, OpsError>,
) -> bool {
    match r {
        Ok(Outcome::Write(rec)) => {
            &&& creates_now(before, after, rec@.id, title, None)
            &&& position_of(after, rec@.id) matches Some(p) && after[p] == rec@
            &&& rec@.frontmatter.title == title
            &&& rec@.frontmatter.status == Status::Open
            &&& rec@.filename == filename_for(rec@.id, title)
            &&& rec@.body is None
        },
        Err(OpsError::Store(e)) => e@ == StoreErrorView::Exhausted && after == before
            && !no_id_taken(before),
        Err(OpsError::Clock) => after == before,
        _ => false,
    }
}

impl App {
    /// Marks the record under the cursor as done where it is open, and
    /// opens it again where it is done. Where the cursor stands on no
    /// record, nothing changes.
    pub fn toggle_done(&mut self) -> (r: Result<Outcome, OpsError>)
        requires
            old(self).wf(),
        ensures
            final(self).wf(),
            toggle_done_spec(old(self)@, final(self)@, r),
    {
        let picked = match self.selected_todo() {
            Some(todo) => Some((todo.id.clone(), todo.is_open())),
            None => None,
        };
        match picked {
            Some((id, is_open)) => {
                if is_open {
                    match mark_done(&mut self.store, id.as_str()) {
                        Ok(todo) => Ok(Outcome::Write(todo)),
                        Err(e) => Err(e),
                    }
                } else {
                    match reopen_todo(&mut self.store, id.as_str()) {
                        Ok(todo) => Ok(Outcome::Write(todo)),
                        Err(e) => Err(OpsError::Store(e)),
                    }
                }
            },
            None => Ok(Outcome::Continue),
        }
    }
}

/// What toggling does to the session: only the store changes, as `toggles`
/// says of the record under the cursor; where the cursor stands on no
/// record, nothing changes.
pub open spec fn toggle_done_spec(pre: AppView, post: AppView, r: Result<Outcome, OpsError>) -> bool {
    &&& post == (AppView { store: post.store, ..pre })
    &&& match pre.selected_todo() {
        Some(t) => toggles(pre.store, post.store, t, r),
        None => r matches Ok(Outcome::Continue) && post.store == pre.store,
    }
}

/// What Enter does. On the row "create" a record is created under the text
/// typed, without the white space around it; then the text typed is erased.
/// On a record the editor is asked for. Where anything fails, and on no row,
/// nothing changes.
pub open spec fn enter_spec(pre: AppView, post: AppView, r: Result<Outcome, OpsError>) -> bool {
    if pre.is_on_create_new() {
        &&& creates_titled(pre.store, post.store, trimmed(pre.input), r)
        &&& r is Ok ==> post == with_input(AppView { store: post.store, ..pre }, Seq::empty())
        &&& r is Err ==> post == pre
    } else {
        &&& post == pre
        &&& match pre.selected_todo() {
            Some(t) => r matches Ok(Outcome::Edit { id, filename }) && id@ == t.id && filename@
                == t.filename,
            None => r matches Ok(Outcome::Continue),
        }
    }
}

/// What the answer yes to "delete?" does: the one record whose id begins
/// with the id kept is deleted, its file has to be removed, and the question
/// is over. Where the store turns the deletion down, nothing changes.
pub open spec fn confirm_delete_spec(
    pre: AppView,
    post: AppView,
    r: Result<Outcome, OpsError>,
) -> bool {
    match pre.mode {
        ModeView::ConfirmDelete { id, title } => match find_spec(pre.store, id) {
            Ok(i) => r matches Ok(Outcome::Remove(t)) && t@ == pre.store[i] && post == (AppView {
                store: pre.store.remove(i),
                mode: ModeView::Normal,
                ..pre
            }),
            Err(e) => r matches Err(OpsError::Store(err)) && err@ == e && post == pre,
        },
        ModeView::Normal => r matches Ok(Outcome::Continue) && post == pre,
    }
}

impl App {
    /// Enter: creates a record on the row "create", asks for the editor on
    /// a record.
    pub fn enter(&mut self) -> (r: Result<Outcome, OpsError>)
        requires
            old(self).wf(),
        ensures
            final(self).wf(),
            enter_spec(old(self)@, final(self)@, r),
    {
        if self.is_on_create_new() {
            let title = trim(self.input.as_str());
            let ghost before = self.store@;
            match create_todo(&mut self.store, title.as_str(), None) {
                Ok(id) => {
                    proof {
                        let now = choose|now: Timestamp|
                            now.in_range() && #[trigger] creates(
                                before,
                                self.store@,
                                id@,
                                title@,
                                None,
                                now,
                            );
                        let record = new_record(id@, fresh_fields(title@, now), None);
                        crate::storage::lemma_insert_by_created(before, record);
                        lemma_inserted_is_found(before, insertion_point(before, record), record);
                        assert(self.store@[insertion_point(before, record)] == record);
                    }
                    match self.store.get(id.as_str()) {
                        Some(todo) => {
                            self.clear_input();
                            Ok(Outcome::Write(todo))
                        },
                        None => {
                            proof {
                                assert(false);
                            }
                            Ok(Outcome::Continue)
                        },
                    }
                },
                Err(e) => Err(e),
            }
        } else {
            match self.selected_todo() {
                Some(todo) => Ok(
                    Outcome::Edit { id: todo.id.clone(), filename: todo.filename.clone() },
                ),
                None => Ok(Outcome::Continue),
            }
        }
    }

    /// Escape: erases the text typed; where nothing is typed, ends the
    /// session.
    pub fn escape(&mut self) -> (r: Outcome)
        requires
            old(self).wf(),
        ensures
            final(self).wf(),
            if old(self)@.input.len() > 0 {
                r matches Outcome::Continue && final(self)@ == with_input(
                    old(self)@,
                    Seq::empty(),
                )
            } else {
                r matches Outcome::Quit && final(self)@ == old(self)@
            },
    {
        if self.has_create_line() {
            self.clear_input();
            Outcome::Continue
        } else {
            Outcome::Quit
        }
    }

    /// The answer yes to "delete?".
    pub fn confirm_delete(&mut self) -> (r: Result<Outcome, OpsError>)
        requires
            old(self).wf(),
        ensures
            final(self).wf(),
            confirm_delete_spec(old(self)@, final(self)@, r),
    {
        let kept = match &self.mode {
            Mode::ConfirmDelete { id, title } => Some(id.clone()),
            Mode::Normal => None,
        };
        match kept {
            Some(id) => match self.store.delete(id.as_str()) {
                Ok(todo) => {
                    self.mode = Mode::Normal;
                    Ok(Outcome::Remove(todo))
                },
                Err(e) => Err(OpsError::Store(e)),
            },
            None => Ok(Outcome::Continue),
        }
    }

    /// Gives the one record of the store whose id begins with `id` the
    /// fields and the body that its file holds after the editor has run.
    pub fn refresh_record(&mut self, id: &str, fm: Frontmatter, body: Option<String>) -> (r:
        Result<(), StoreError>)
        requires
            old(self).wf(),
        ensures
            final(self).wf(),
            final(self)@ == (AppView { store: final(self)@.store, ..old(self)@ }),
            match find_spec(old(self)@.store, id@) {
                Ok(i) => r is Ok && final(self)@.store == crate::storage::sort_by_created(
                    old(self)@.store.update(
                        i,
                        crate::storage::with_content(old(self)@.store[i], fm@, text_of(body)),
                    ),
                ),
                Err(e) => r matches Err(err) && err@ == e && final(self)@.store == old(self)@.store,
            },
    {
        self.store.refresh(id, fm, body)
    }
}

/// What a key does to the session and what it leaves to do.
pub open spec fn step_spec(
    pre: AppView,
    key: KeyEvent,
    post: AppView,
    r: Result<Outcome, OpsError>,
) -> bool {
    match key_action_spec(pre.mode is ConfirmDelete, key) {
        KeyAction::Quit => r matches Ok(Outcome::Quit) && post == pre,
        KeyAction::ToggleShowAll => r matches Ok(Outcome::Continue) && post == reloaded(
            AppView { show_all: !pre.show_all, ..pre },
        ),
        KeyAction::ToggleDone => toggle_done_spec(pre, post, r),
        KeyAction::AskDelete => r matches Ok(Outcome::Continue) && post == (AppView {
            mode: match pre.selected_todo() {
                Some(t) => ModeView::ConfirmDelete { id: t.id, title: t.frontmatter.title },
                None => pre.mode,
            },
            ..pre
        }),
        KeyAction::Type(c) => r matches Ok(Outcome::Continue) && post == with_input(
            pre,
            pre.input.push(c),
        ),
        KeyAction::Erase => r matches Ok(Outcome::Continue) && post == with_input(
            pre,
            if pre.input.len() > 0 {
                pre.input.drop_last()
            } else {
                pre.input
            },
        ),
        KeyAction::Enter => enter_spec(pre, post, r),
        KeyAction::Escape => if pre.input.len() > 0 {
            r matches Ok(Outcome::Continue) && post == with_input(pre, Seq::empty())
        } else {
            r matches Ok(Outcome::Quit) && post == pre
        },
        KeyAction::Down => r matches Ok(Outcome::Continue) && post == (AppView {
            selected: match pre.selected {
                Some(row) if row + 1 < pre.selectable_count() => Some((row + 1) as usize),
                other => other,
            },
            ..pre
        }),
        KeyAction::Up => r matches Ok(Outcome::Continue) && post == (AppView {
            selected: match pre.selected {
                Some(row) if row > 0 => Some((row - 1) as usize),
                other => other,
            },
            ..pre
        }),
        KeyAction::ConfirmDelete => confirm_delete_spec(pre, post, r),
        KeyAction::CancelDelete => r matches Ok(Outcome::Continue) && post == (AppView {
            mode: ModeView::Normal,
            ..pre
        }),
        KeyAction::Nothing => r matches Ok(Outcome::Continue) && post == pre,
    }
}

impl App {
    /// Does what the key `key` asks for and says what is left to do: work
    /// on files, on the terminal, or nothing. After that work, `reload`
    /// brings the records shown up to date.
    pub fn handle_key(&mut self, key: KeyEvent) -> (r: Result<Outcome, OpsError>)
        requires
            old(self).wf(),
        ensures
            final(self).wf(),
            step_spec(old(self)@, key, final(self)@, r),
    {
        let confirming = match &self.mode {
            Mode::ConfirmDelete { id, title } => true,
            Mode::Normal => false,
        };
        match key_action(confirming, key) {
            KeyAction::Quit => Ok(Outcome::Quit),
            KeyAction::ToggleShowAll => {
                self.toggle_show_all();
                Ok(Outcome::Continue)
            },
            KeyAction::ToggleDone => self.toggle_done(),
            KeyAction::AskDelete => {
                self.ask_delete();
                Ok(Outcome::Continue)
            },
            KeyAction::Type(c) => {
                self.type_char(c);
                Ok(Outcome::Continue)
            },
            KeyAction::Erase => {
                self.erase_char();
                Ok(Outcome::Continue)
            },
            KeyAction::Enter => self.enter(),
            KeyAction::Escape => Ok(self.escape()),
            KeyAction::Down => {
                self.cursor_down();
                Ok(Outcome::Continue)
            },
            KeyAction::Up => {
                self.cursor_up();
                Ok(Outcome::Continue)
            },
            KeyAction::ConfirmDelete => self.confirm_delete(),
            KeyAction::CancelDelete => {
                self.cancel_delete();
                Ok(Outcome::Continue)
            },
            KeyAction::Nothing => Ok(Outcome::Continue),
        }
    }
}

} // verus!
