//! The cache of decoded records: loading, listing, lookup by id prefix, and
//! the changes that keep it in the order of creation.
use vstd::prelude::*;
use crate::todo::{text_of, Frontmatter, FrontmatterView, Todo, TodoView};
use crate::text::{chars_of, join, joined, same_text, starts_with, texts};
use crate::util::{answers, generate_id, hex4, is_id, slugify, slugify_spec};

verus! {

/// What each record of `s` holds.
pub open spec fn views(s: Seq<Todo>) -> Seq<TodoView> {
    Seq::new(s.len(), |i: int| s[i]@)
}

/// What each record that `s` points at holds.
pub open spec fn ref_views(s: Seq<&Todo>) -> Seq<TodoView> {
    Seq::new(s.len(), |i: int| s[i]@)
}

/// The records of `s` stand in the order of their creation, the earliest
/// first.
pub open spec fn is_sorted(s: Seq<TodoView>) -> bool {
    forall|i: int, j: int|
        0 <= i <= j < s.len() ==> s[i].frontmatter.created.ordinal()
            <= s[j].frontmatter.created.ordinal()
}

/// `s` with `x` put behind the last record that was created no later than
/// `x`, as seen from the end of `s`.
pub open spec fn insert_by_created(s: Seq<TodoView>, x: TodoView) -> Seq<TodoView>
    decreases s.len(),
{
    if s.len() == 0 || s.last().frontmatter.created.ordinal() <= x.frontmatter.created.ordinal() {
        s.push(x)
    } else {
        insert_by_created(s.drop_last(), x).push(s.last())
    }
}

/// The records of `s` in the order of their creation; records created at
/// the same time keep the order they have in `s`.
pub open spec fn sort_by_created(s: Seq<TodoView>) -> Seq<TodoView>
    decreases s.len(),
{
    if s.len() == 0 {
        s
    } else {
        insert_by_created(sort_by_created(s.drop_last()), s.last())
    }
}

/// Where `insert_by_created` puts `x`: behind the records of `s` that come
/// before the trailing run of records created later than `x`.
pub open spec fn insertion_point(s: Seq<TodoView>, x: TodoView) -> int
    decreases s.len(),
{
    if s.len() == 0 || s.last().frontmatter.created.ordinal() <= x.frontmatter.created.ordinal() {
        s.len() as int
    } else {
        insertion_point(s.drop_last(), x)
    }
}

/// `insert_by_created` puts `x` into `s` at the insertion point and moves
/// nothing else.
pub proof fn lemma_insert_by_created(s: Seq<TodoView>, x: TodoView)
    ensures
        0 <= insertion_point(s, x) <= s.len(),
        insert_by_created(s, x) == s.insert(insertion_point(s, x), x),
        is_sorted(s) ==> is_sorted(insert_by_created(s, x)),
    decreases s.len(),
{
    if s.len() == 0 || s.last().frontmatter.created.ordinal() <= x.frontmatter.created.ordinal() {
        assert(s.push(x) =~= s.insert(s.len() as int, x));
    } else {
        let front = s.drop_last();
        lemma_insert_by_created(front, x);
        let p = insertion_point(front, x);
        assert(front.insert(p, x).push(s.last()) =~= s.insert(p, x));
        if is_sorted(s) {
            assert(is_sorted(front)) by {
                assert forall|i: int, j: int| 0 <= i <= j < front.len() implies front[i].frontmatter.created.ordinal()
                    <= front[j].frontmatter.created.ordinal() by {
                    assert(front[i] == s[i] && front[j] == s[j]);
                }
            }
            let r = insert_by_created(s, x);
            let fi = insert_by_created(front, x);
            assert(r == fi.push(s.last()));
            assert forall|i: int, j: int| 0 <= i <= j < r.len() implies r[i].frontmatter.created.ordinal()
                <= r[j].frontmatter.created.ordinal() by {
                if j < fi.len() {
                    assert(r[i] == fi[i] && r[j] == fi[j]);
                } else if i < fi.len() {
                    assert(r[i] == fi[i]);
                    if i < p {
                        assert(fi[i] == front[i]);
                        assert(front[i] == s[i]);
                    } else if i == p {
                    } else {
                        assert(fi[i] == front[i - 1]);
                        assert(front[i - 1] == s[i - 1]);
                    }
                }
            }
        }
    }
}

/// Sorting gives the order of creation, keeps the number of records, and
/// leaves records alone that stand in that order already.
pub proof fn lemma_sort_by_created(s: Seq<TodoView>)
    ensures
        is_sorted(sort_by_created(s)),
        sort_by_created(s).len() == s.len(),
        is_sorted(s) ==> sort_by_created(s) == s,
    decreases s.len(),
{
    if s.len() > 0 {
        let front = s.drop_last();
        lemma_sort_by_created(front);
        lemma_insert_by_created(sort_by_created(front), s.last());
        if is_sorted(s) {
            assert(is_sorted(front)) by {
                assert forall|i: int, j: int| 0 <= i <= j < front.len() implies front[i].frontmatter.created.ordinal()
                    <= front[j].frontmatter.created.ordinal() by {
                    assert(front[i] == s[i] && front[j] == s[j]);
                }
            }
            if front.len() > 0 {
                assert(front.last() == s[s.len() - 2]);
            }
            assert(front.push(s.last()) =~= s);
        }
    }
}

/// `insert_by_created` adds `x` to the records of `s` and loses none.
pub proof fn lemma_insert_permutes(s: Seq<TodoView>, x: TodoView)
    ensures
        insert_by_created(s, x).to_multiset() == s.to_multiset().insert(x),
    decreases s.len(),
{
    broadcast use vstd::seq_lib::group_to_multiset_ensures;

    if s.len() == 0 || s.last().frontmatter.created.ordinal() <= x.frontmatter.created.ordinal() {
        assert(s.push(x).to_multiset() =~= s.to_multiset().insert(x));
    } else {
        let front = s.drop_last();
        lemma_insert_permutes(front, x);
        assert(front.push(s.last()) == s);
        assert(insert_by_created(front, x).push(s.last()).to_multiset() =~= insert_by_created(
            front,
            x,
        ).to_multiset().insert(s.last()));
        assert(s.to_multiset() =~= front.to_multiset().insert(s.last()));
        assert(insert_by_created(s, x).to_multiset() =~= s.to_multiset().insert(x));
    }
}

/// Sorting loses no record and adds none: what comes out holds each record
/// as often as what went in.
pub proof fn lemma_sort_permutes(s: Seq<TodoView>)
    ensures
        sort_by_created(s).to_multiset() == s.to_multiset(),
    decreases s.len(),
{
    broadcast use vstd::seq_lib::group_to_multiset_ensures;

    if s.len() > 0 {
        let front = s.drop_last();
        lemma_sort_permutes(front);
        lemma_insert_permutes(sort_by_created(front), s.last());
        assert(front.push(s.last()) == s);
        assert(s.to_multiset() =~= front.to_multiset().insert(s.last()));
    }
}

/// The records of `s` that were created at `at`, in the order of `s`.
pub open spec fn created_at(s: Seq<TodoView>, at: int) -> Seq<TodoView>
    decreases s.len(),
{
    if s.len() == 0 {
        s
    } else if s.last().frontmatter.created.ordinal() == at {
        created_at(s.drop_last(), at).push(s.last())
    } else {
        created_at(s.drop_last(), at)
    }
}

/// `insert_by_created` puts `x` behind the records created at the same time
/// and leaves the order of all others as it is.
pub proof fn lemma_insert_stable(s: Seq<TodoView>, x: TodoView, at: int)
    ensures
        created_at(insert_by_created(s, x), at) == if x.frontmatter.created.ordinal() == at {
            created_at(s, at).push(x)
        } else {
            created_at(s, at)
        },
    decreases s.len(),
{
    if s.len() == 0 || s.last().frontmatter.created.ordinal() <= x.frontmatter.created.ordinal() {
        assert(s.push(x).drop_last() == s);
    } else {
        let front = s.drop_last();
        lemma_insert_stable(front, x, at);
        let r = insert_by_created(front, x).push(s.last());
        assert(r.drop_last() == insert_by_created(front, x));
    }
}

/// Sorting is stable: records created at the same time keep the order in
/// which they stood.
pub proof fn lemma_sort_stable(s: Seq<TodoView>, at: int)
    ensures
        created_at(sort_by_created(s), at) == created_at(s, at),
    decreases s.len(),
{
    if s.len() > 0 {
        lemma_sort_stable(s.drop_last(), at);
        lemma_insert_stable(sort_by_created(s.drop_last()), s.last(), at);
    }
}

/// Puts `t` into `out` behind the last record created no later than `t`.
fn insert_sorted(out: &mut Vec<Todo>, t: Todo)
    ensures
        views(final(out)@) == insert_by_created(views(old(out)@), t@),
{
    let mut p: usize = out.len();
    let ghost all = views(out@);
    assert(all.take(p as int) == all);
    while p > 0 && !out[p - 1].frontmatter.created.not_after(&t.frontmatter.created)
        invariant
            p <= out.len(),
            out == old(out),
            all == views(out@),
            insertion_point(all, t@) == insertion_point(all.take(p as int), t@),
        decreases p,
    {
        proof {
            assert(all.take(p as int).drop_last() == all.take(p - 1));
            assert(all.take(p as int).last() == out@[p - 1]@);
        }
        p -= 1;
    }
    proof {
        assert(all.take(all.len() as int) == all);
        if p > 0 {
            assert(all.take(p as int).last() == out@[p - 1]@);
        }
        assert(insertion_point(all, t@) == p);
        lemma_insert_by_created(all, t@);
    }
    out.insert(p, t);
    assert(views(out@) =~= all.insert(p as int, t@));
}

/// Puts the records of `v` into the order of their creation.
pub fn sort_todos(v: Vec<Todo>) -> (out: Vec<Todo>)
    ensures
        views(out@) == sort_by_created(views(v@)),
        is_sorted(views(out@)),
{
    let mut out: Vec<Todo> = Vec::new();
    let ghost all = views(v@);
    for t in it: v
        invariant
            all == views(it.seq()),
            views(out@) == sort_by_created(all.take(it.index() as int)),
    {
        proof {
            assert(all.take(it.index() + 1).drop_last() == all.take(it.index() as int));
            assert(all.take(it.index() + 1).last() == t@);
        }
        insert_sorted(&mut out, t);
    }
    proof {
        assert(all.take(all.len() as int) == all);
        lemma_sort_by_created(all);
    }
    out
}

/// The hexadecimal digits, in either case.
pub open spec fn is_hex_digit(c: char) -> bool {
    ('0' <= c <= '9') || ('a' <= c <= 'f') || ('A' <= c <= 'F')
}

/// The ending of a record's file name.
pub open spec fn md_suffix() -> Seq<char> {
    seq!['.', 'm', 'd']
}

/// The id that a file name carries: its first four characters, where these
/// are hexadecimal digits, where `.md` ends the name, and where nothing or a
/// hyphen and a slug stands between the two.
pub open spec fn filename_id(name: Seq<char>) -> Option<Seq<char>> {
    if name.len() >= 7 && name.subrange(name.len() - 3, name.len() as int) == md_suffix() && (
    forall|i: int| 0 <= i < 4 ==> is_hex_digit(#[trigger] name[i])) && (name.len() == 7 || name[4]
        == '-') {
        Some(name.take(4))
    } else {
        None
    }
}

fn hex_digit_char(c: char) -> (r: bool)
    ensures
        r == is_hex_digit(c),
{
    ('0' <= c && c <= '9') || ('a' <= c && c <= 'f') || ('A' <= c && c <= 'F')
}

/// The id in the name of a record's file, or nothing where the name is not
/// that of a record.
pub fn id_from_filename(name: &str) -> (r: Option<&str>)
    ensures
        match r {
            Some(id) => filename_id(name@) == Some(id@),
            None => filename_id(name@) is None,
        },
{
    let v = chars_of(name);
    let n = v.len();
    if n < 7 {
        return None;
    }
    if v[n - 3] != '.' || v[n - 2] != 'm' || v[n - 1] != 'd' {
        assert(v@.subrange(n - 3, n as int)[0] == v@[n - 3]);
        assert(v@.subrange(n - 3, n as int)[1] == v@[n - 2]);
        assert(v@.subrange(n - 3, n as int)[2] == v@[n - 1]);
        return None;
    }
    assert(v@.subrange(n - 3, n as int) =~= md_suffix());
    if !(hex_digit_char(v[0]) && hex_digit_char(v[1]) && hex_digit_char(v[2]) && hex_digit_char(
        v[3],
    )) {
        return None;
    }
    if n != 7 && v[4] != '-' {
        return None;
    }
    Some(name.substring_char(0, 4))
}

/// The name of the file of a new record: the id, then a hyphen and the slug
/// of the title unless the slug is empty, then `.md`.
pub open spec fn filename_for(id: Seq<char>, title: Seq<char>) -> Seq<char> {
    let slug = slugify_spec(title);
    if slug.len() == 0 {
        id + md_suffix()
    } else {
        id + seq!['-'] + slug + md_suffix()
    }
}

/// The id is read back from the name of the file that a new record gets.
pub proof fn lemma_filename_carries_id(id: Seq<char>, title: Seq<char>)
    requires
        is_id(id),
    ensures
        filename_id(filename_for(id, title)) == Some(id),
{
    let name = filename_for(id, title);
    assert(name.subrange(name.len() - 3, name.len() as int) =~= md_suffix());
    assert forall|i: int| 0 <= i < 4 implies is_hex_digit(#[trigger] name[i]) by {
        assert(name[i] == id[i]);
    }
    assert(name.take(4) =~= id);
}

/// Why the store turns a request down.
#[derive(Debug)]
pub enum StoreError {
    /// No record has an id that begins with `id`, or `id` is empty.
    NotFound { id: String },
    /// Several records have an id that begins with `id`; `matches` holds the
    /// id of each, in the order of the cache.
    Ambiguous { id: String, matches: Vec<String> },
    /// The record to save is no longer in the cache.
    Stale { id: String },
    /// No free id turned up among the candidates drawn.
    Exhausted,
}

/// What a `StoreError` holds, with texts as sequences of characters.
pub enum StoreErrorView {
    NotFound { id: Seq<char> },
    Ambiguous { id: Seq<char>, matches: Seq<Seq<char>> },
    Stale { id: Seq<char> },
    Exhausted,
}

impl View for StoreError {
    type V = StoreErrorView;

    open spec fn view(&self) -> StoreErrorView {
        match *self {
            StoreError::NotFound { id } => StoreErrorView::NotFound { id: id@ },
            StoreError::Ambiguous { id, matches } => StoreErrorView::Ambiguous {
                id: id@,
                matches: texts(matches@),
            },
            StoreError::Stale { id } => StoreErrorView::Stale { id: id@ },
            StoreError::Exhausted => StoreErrorView::Exhausted,
        }
    }
}

impl StoreErrorView {
    /// The error in words.
    pub open spec fn message(self) -> Seq<char> {
        match self {
            StoreErrorView::NotFound { id } => if id.len() == 0 {
                "todo id must not be empty"@
            } else {
                "no todo found with id '"@ + id + "'"@
            },
            StoreErrorView::Ambiguous { id, matches } => "ambiguous id '"@ + id + "': matches "@
                + joined(matches, ", "@),
            StoreErrorView::Stale { id } => "no todo in store with id '"@ + id + "'"@,
            StoreErrorView::Exhausted => "no free id found"@,
        }
    }
}

impl StoreError {
    /// The error in words.
    pub fn message(&self) -> (r: String)
        ensures
            r@ == self@.message(),
    {
        match self {
            StoreError::NotFound { id } => {
                if id.as_str().is_empty() {
                    "todo id must not be empty".to_owned()
                } else {
                    let mut out = "no todo found with id '".to_owned();
                    out.append(id.as_str());
                    out.append("'");
                    out
                }
            },
            StoreError::Ambiguous { id, matches } => {
                let mut out = "ambiguous id '".to_owned();
                out.append(id.as_str());
                out.append("': matches ");
                let list = join(matches, ", ");
                out.append(list.as_str());
                out
            },
            StoreError::Stale { id } => {
                let mut out = "no todo in store with id '".to_owned();
                out.append(id.as_str());
                out.append("'");
                out
            },
            StoreError::Exhausted => "no free id found".to_owned(),
        }
    }
}

/// The places in `s` of the records whose id begins with `prefix`, in
/// rising order.
pub open spec fn matching(s: Seq<TodoView>, prefix: Seq<char>) -> Seq<int>
    decreases s.len(),
{
    if s.len() == 0 {
        Seq::empty()
    } else {
        let before = matching(s.drop_last(), prefix);
        if prefix.is_prefix_of(s.last().id) {
            before.push(s.len() - 1)
        } else {
            before
        }
    }
}

/// `matching` lists every place of a record whose id begins with `prefix`,
/// each once, in rising order, and no other place.
pub proof fn lemma_matching(s: Seq<TodoView>, prefix: Seq<char>)
    ensures
        forall|k: int|
            0 <= k < matching(s, prefix).len() ==> 0 <= (#[trigger] matching(s, prefix)[k])
                < s.len() && prefix.is_prefix_of(s[matching(s, prefix)[k]].id),
        forall|k: int, l: int|
            0 <= k < l < matching(s, prefix).len() ==> matching(s, prefix)[k] < matching(
                s,
                prefix,
            )[l],
        forall|i: int|
            0 <= i < s.len() && prefix.is_prefix_of((#[trigger] s[i]).id) ==> matching(
                s,
                prefix,
            ).contains(i),
    decreases s.len(),
{
    if s.len() > 0 {
        let front = s.drop_last();
        lemma_matching(front, prefix);
        let before = matching(front, prefix);
        let m = matching(s, prefix);
        assert forall|k: int| 0 <= k < m.len() implies 0 <= (#[trigger] m[k]) < s.len()
            && prefix.is_prefix_of(s[m[k]].id) by {
            if k < before.len() {
                assert(m[k] == before[k]);
                assert(front[before[k]] == s[before[k]]);
            }
        }
        assert forall|k: int, l: int| 0 <= k < l < m.len() implies m[k] < m[l] by {
            assert(m[k] == before[k]);
            if l < before.len() {
                assert(m[l] == before[l]);
            }
        }
        assert forall|i: int|
            0 <= i < s.len() && prefix.is_prefix_of((#[trigger] s[i]).id) implies m.contains(
            i,
        ) by {
            if i < front.len() {
                assert(front[i] == s[i]);
                assert(before.contains(i));
                let k = choose|k: int| 0 <= k < before.len() && before[k] == i;
                assert(m[k] == i);
            } else {
                assert(m[m.len() - 1] == i);
            }
        }
    }
}

/// The ids of the records of `s` at the places `at`.
pub open spec fn ids_at(s: Seq<TodoView>, at: Seq<int>) -> Seq<Seq<char>> {
    Seq::new(at.len(), |k: int| s[at[k]].id)
}

/// The place of the one record whose id begins with `prefix`, or why there
/// is no such place: an empty prefix finds nothing, and neither does one
/// with which no id begins; one with which several ids begin is ambiguous.
pub open spec fn find_spec(s: Seq<TodoView>, prefix: Seq<char>) -> Result<int, StoreErrorView> {
    let found = matching(s, prefix);
    if prefix.len() == 0 || found.len() == 0 {
        Err(StoreErrorView::NotFound { id: prefix })
    } else if found.len() == 1 {
        Ok(found[0])
    } else {
        Err(StoreErrorView::Ambiguous { id: prefix, matches: ids_at(s, found) })
    }
}

/// The empty prefix finds nothing, and neither does a prefix with which no
/// id begins.
pub proof fn lemma_find_none(s: Seq<TodoView>, prefix: Seq<char>)
    requires
        prefix.len() == 0 || forall|i: int|
            0 <= i < s.len() ==> !prefix.is_prefix_of((#[trigger] s[i]).id),
    ensures
        find_spec(s, prefix) == Err::<int, StoreErrorView>(
            StoreErrorView::NotFound { id: prefix },
        ),
{
    let m = matching(s, prefix);
    lemma_matching(s, prefix);
    if prefix.len() > 0 && m.len() > 0 {
        assert(prefix.is_prefix_of(s[m[0]].id));
    }
}

/// A prefix with which the id of exactly one record begins finds the place
/// of that record.
pub proof fn lemma_find_one(s: Seq<TodoView>, prefix: Seq<char>, i: int)
    requires
        prefix.len() > 0,
        0 <= i < s.len(),
        prefix.is_prefix_of(s[i].id),
        forall|j: int| 0 <= j < s.len() && j != i ==> !prefix.is_prefix_of((#[trigger] s[j]).id),
    ensures
        find_spec(s, prefix) == Ok::<int, StoreErrorView>(i),
{
    let m = matching(s, prefix);
    lemma_matching(s, prefix);
    assert(m.contains(i));
    assert(prefix.is_prefix_of(s[m[0]].id));
    if m.len() > 1 {
        assert(m[0] < m[1]);
        assert(prefix.is_prefix_of(s[m[1]].id));
    }
}

/// A prefix with which the ids of two records or more begin is ambiguous.
/// The error lists the ids of just the records whose id begins with the
/// prefix, each record once, in the order of the cache.
pub proof fn lemma_find_many(s: Seq<TodoView>, prefix: Seq<char>, i: int, j: int)
    requires
        prefix.len() > 0,
        0 <= i < j < s.len(),
        prefix.is_prefix_of(s[i].id),
        prefix.is_prefix_of(s[j].id),
    ensures
        find_spec(s, prefix) == Err::<int, StoreErrorView>(
            StoreErrorView::Ambiguous { id: prefix, matches: ids_at(s, matching(s, prefix)) },
        ),
        forall|k: int|
            0 <= k < matching(s, prefix).len() ==> prefix.is_prefix_of(
                #[trigger] ids_at(s, matching(s, prefix))[k],
            ),
        forall|n: int|
            0 <= n < s.len() && prefix.is_prefix_of((#[trigger] s[n]).id) ==> exists|k: int|
                0 <= k < matching(s, prefix).len() && matching(s, prefix)[k] == n,
{
    let m = matching(s, prefix);
    lemma_matching(s, prefix);
    assert(m.contains(i) && m.contains(j));
    let k = choose|k: int| 0 <= k < m.len() && m[k] == i;
    let l = choose|l: int| 0 <= l < m.len() && m[l] == j;
    assert(k != l);
    assert forall|n: int|
        0 <= n < s.len() && prefix.is_prefix_of((#[trigger] s[n]).id) implies exists|k: int|
        0 <= k < m.len() && m[k] == n by {
        assert(m.contains(n));
    }
}

/// No record of `s` has an id that a draw can give: the search for a fresh
/// id cannot be turned down.
pub open spec fn no_id_taken(s: Seq<TodoView>) -> bool {
    forall|n: u16| !has_id(s, #[trigger] hex4(n))
}

/// A record of `s` has the id `id`.
pub open spec fn has_id(s: Seq<TodoView>, id: Seq<char>) -> bool {
    exists|i: int| 0 <= i < s.len() && (#[trigger] s[i]).id == id
}

/// No two records of `s` have the same id.
pub open spec fn ids_unique(s: Seq<TodoView>) -> bool {
    forall|i: int, j: int| 0 <= i < j < s.len() ==> (#[trigger] s[i]).id != (#[trigger] s[j]).id
}

/// The place of the first record of `s` with the id `id`.
pub open spec fn position_of(s: Seq<TodoView>, id: Seq<char>) -> Option<int>
    decreases s.len(),
{
    if s.len() == 0 {
        None
    } else {
        match position_of(s.drop_last(), id) {
            Some(i) => Some(i),
            None => if s.last().id == id {
                Some(s.len() - 1)
            } else {
                None
            },
        }
    }
}

/// `position_of` gives the least place of a record with the id, and
/// nothing exactly where no record has it.
pub proof fn lemma_position_of(s: Seq<TodoView>, id: Seq<char>)
    ensures
        match position_of(s, id) {
            Some(i) => 0 <= i < s.len() && s[i].id == id && forall|j: int|
                0 <= j < i ==> (#[trigger] s[j]).id != id,
            None => !has_id(s, id),
        },
    decreases s.len(),
{
    if s.len() > 0 {
        let front = s.drop_last();
        lemma_position_of(front, id);
        match position_of(front, id) {
            Some(i) => {
                assert(front[i] == s[i]);
                assert forall|j: int| 0 <= j < i implies (#[trigger] s[j]).id != id by {
                    assert(front[j] == s[j]);
                }
            },
            None => {
                assert forall|j: int| 0 <= j < s.len() - 1 implies (#[trigger] s[j]).id != id by {
                    assert(front[j] == s[j]);
                }
            },
        }
    }
}

/// A file found in the directory of the store: its name and, where its
/// text could be decoded, the fields and the body that it holds.
#[derive(Debug)]
pub struct FoundFile {
    pub filename: String,
    pub content: Option<(Frontmatter, Option<String>)>,
}

/// The records that the files give, in the order of the files: one for each
/// file whose name carries an id and whose text could be decoded.
pub open spec fn loaded(files: Seq<FoundFile>) -> Seq<TodoView>
    decreases files.len(),
{
    if files.len() == 0 {
        Seq::empty()
    } else {
        let before = loaded(files.drop_last());
        let file = files.last();
        match (filename_id(file.filename@), file.content) {
            (Some(id), Some((fm, body))) => before.push(
                TodoView { id, filename: file.filename@, frontmatter: fm@, body: text_of(body) },
            ),
            _ => before,
        }
    }
}

/// The number of files whose name carries an id and whose text could not be
/// decoded.
pub open spec fn undecoded(files: Seq<FoundFile>) -> nat
    decreases files.len(),
{
    if files.len() == 0 {
        0
    } else {
        let before = undecoded(files.drop_last());
        let file = files.last();
        if filename_id(file.filename@) is Some && file.content is None {
            before + 1
        } else {
            before
        }
    }
}

/// The record that `create` adds.
pub open spec fn new_record(
    id: Seq<char>,
    fm: FrontmatterView,
    body: Option<Seq<char>>,
) -> TodoView {
    TodoView { id, filename: filename_for(id, fm.title), frontmatter: fm, body }
}

/// The text of an optional string slice.
pub open spec fn slice_text(s: Option<&str>) -> Option<Seq<char>> {
    match s {
        Some(t) => Some(t@),
        None => None,
    }
}

/// The records of one directory, decoded, in the order of their creation.
pub struct Store {
    cache: Vec<Todo>,
    skipped: usize,
}

impl View for Store {
    type V = Seq<TodoView>;

    /// The records of the cache, in its order.
    closed spec fn view(&self) -> Seq<TodoView> {
        views(self.cache@)
    }
}

impl Store {
    #[verifier::type_invariant]
    spec fn in_order(self) -> bool {
        is_sorted(views(self.cache@))
    }

    /// The number of files that were passed over when the store was opened.
    pub closed spec fn skipped_count(&self) -> nat {
        self.skipped as nat
    }

    /// Opens a store over the files found in its directory. A file whose
    /// name carries no id is no record and is passed over in silence; one
    /// whose text could not be decoded is passed over and counted.
    pub fn open(files: Vec<FoundFile>) -> (store: Store)
        ensures
            store@ == sort_by_created(loaded(files@)),
            store.skipped_count() == undecoded(files@),
    {
        let mut todos: Vec<Todo> = Vec::new();
        let mut skipped: usize = 0;
        let ghost all = files@;
        let count = files.len();
        for file in it: files
            invariant
                all == it.seq(),
                views(todos@) == loaded(all.take(it.index() as int)),
                skipped == undecoded(all.take(it.index() as int)),
                skipped <= it.index(),
                all.len() == count,
        {
            proof {
                assert(all.take(it.index() + 1).drop_last() == all.take(it.index() as int));
                assert(all.take(it.index() + 1).last() == file);
            }
            let FoundFile { filename, content } = file;
            let id = match id_from_filename(filename.as_str()) {
                Some(id) => Some(id.to_owned()),
                None => None,
            };
            match id {
                Some(id) => {
                    match content {
                        Some((frontmatter, body)) => {
                            let ghost before = views(todos@);
                            let todo = Todo { id, filename, frontmatter, body };
                            todos.push(todo);
                            assert(views(todos@) =~= before.push(todo@));
                        },
                        None => {
                            skipped += 1;
                        },
                    }
                },
                None => {},
            }
        }
        assert(all.take(all.len() as int) == all);
        let cache = sort_todos(todos);
        Store { cache, skipped }
    }

    /// The directory of the store: the one asked for, or `.todo` where none
    /// is.
    pub fn resolve_dir(override_dir: Option<&str>) -> (dir: String)
        ensures
            dir@ == match override_dir {
                Some(d) => d@,
                None => ".todo"@,
            },
    {
        match override_dir {
            Some(d) => d.to_owned(),
            None => ".todo".to_owned(),
        }
    }

    /// The number of files that were passed over when the store was opened
    /// because their text could not be decoded.
    pub fn skipped(&self) -> (n: usize)
        ensures
            n == self.skipped_count(),
    {
        self.skipped
    }

    /// All records, in the order of their creation.
    pub fn list_all(&self) -> (all: &[Todo])
        ensures
            views(all@) == self@,
            is_sorted(self@),
    {
        proof {
            use_type_invariant(self);
        }
        self.cache.as_slice()
    }
}

/// The records of `s` that are still to be done, in the order of `s`.
pub open spec fn open_only(s: Seq<TodoView>) -> Seq<TodoView>
    decreases s.len(),
{
    if s.len() == 0 {
        s
    } else if s.last().is_open() {
        open_only(s.drop_last()).push(s.last())
    } else {
        open_only(s.drop_last())
    }
}

impl Store {
    /// The records that are still to be done, in the order of their
    /// creation.
    pub fn list_open(&self) -> (open: Vec<&Todo>)
        ensures
            ref_views(open@) == open_only(self@),
    {
        let mut open: Vec<&Todo> = Vec::new();
        let mut i: usize = 0;
        while i < self.cache.len()
            invariant
                i <= self.cache.len(),
                ref_views(open@) == open_only(self@.take(i as int)),
            decreases self.cache.len() - i,
        {
            proof {
                assert(self@.take(i + 1).drop_last() == self@.take(i as int));
                assert(self@.take(i + 1).last() == self.cache@[i as int]@);
            }
            if self.cache[i].is_open() {
                let ghost before = ref_views(open@);
                open.push(&self.cache[i]);
                assert(ref_views(open@) =~= before.push(self.cache@[i as int]@));
            }
            i += 1;
        }
        assert(self@.take(self.cache.len() as int) == self@);
        open
    }

    /// Whether a record of the cache has the id `id`.
    pub fn contains_id(&self, id: &str) -> (r: bool)
        ensures
            r == has_id(self@, id@),
    {
        let mut i: usize = 0;
        while i < self.cache.len()
            invariant
                i <= self.cache.len(),
                forall|j: int| 0 <= j < i ==> (#[trigger] self@[j]).id != id@,
            decreases self.cache.len() - i,
        {
            if same_text(self.cache[i].id.as_str(), id) {
                assert(self@[i as int].id == id@);
                return true;
            }
            i += 1;
        }
        false
    }

    /// The place in the cache of the one record whose id begins with `id`.
    fn find_index(&self, id: &str) -> (r: Result<usize, StoreError>)
        ensures
            match r {
                Ok(i) => find_spec(self@, id@) == Ok::<int, StoreErrorView>(i as int) && i
                    < self@.len(),
                Err(e) => find_spec(self@, id@) == Err::<int, StoreErrorView>(e@),
            },
    {
        if id.is_empty() {
            return Err(StoreError::NotFound { id: id.to_owned() });
        }
        let mut found: Vec<usize> = Vec::new();
        let mut i: usize = 0;
        while i < self.cache.len()
            invariant
                i <= self.cache.len(),
                found@.len() == matching(self@.take(i as int), id@).len(),
                forall|k: int|
                    0 <= k < found@.len() ==> (#[trigger] found@[k]) as int == matching(
                        self@.take(i as int),
                        id@,
                    )[k],
            decreases self.cache.len() - i,
        {
            proof {
                assert(self@.take(i + 1).drop_last() == self@.take(i as int));
                assert(self@.take(i + 1).last() == self.cache@[i as int]@);
            }
            if starts_with(self.cache[i].id.as_str(), id) {
                found.push(i);
            }
            i += 1;
        }
        proof {
            assert(self@.take(self.cache.len() as int) == self@);
            lemma_matching(self@, id@);
        }
        if found.len() == 0 {
            Err(StoreError::NotFound { id: id.to_owned() })
        } else if found.len() == 1 {
            Ok(found[0])
        } else {
            let mut ids: Vec<String> = Vec::new();
            let mut k: usize = 0;
            while k < found.len()
                invariant
                    k <= found.len(),
                    found@.len() == matching(self@, id@).len(),
                    forall|l: int|
                        0 <= l < found@.len() ==> (#[trigger] found@[l]) as int == matching(
                            self@,
                            id@,
                        )[l] && found@[l] < self.cache.len(),
                    ids@.len() == k,
                    forall|l: int|
                        0 <= l < k ==> (#[trigger] ids@[l])@ == self@[matching(self@, id@)[l]].id,
                decreases found.len() - k,
            {
                ids.push(self.cache[found[k]].id.clone());
                k += 1;
            }
            assert(texts(ids@) =~= ids_at(self@, matching(self@, id@)));
            Err(StoreError::Ambiguous { id: id.to_owned(), matches: ids })
        }
    }

    /// The one record whose id begins with `id`.
    ///
    /// Every record is looked at, so the search takes time in proportion to
    /// their number.
    pub fn find_by_id(&self, id: &str) -> (r: Result<Todo, StoreError>)
        ensures
            match r {
                Ok(todo) => find_spec(self@, id@) is Ok && todo@ == self@[find_spec(
                    self@,
                    id@,
                )->Ok_0],
                Err(e) => find_spec(self@, id@) == Err::<int, StoreErrorView>(e@),
            },
    {
        match self.find_index(id) {
            Ok(i) => Ok(self.cache[i].clone()),
            Err(e) => Err(e),
        }
    }
}

/// Putting a record into `s` adds its id to those of `s` and keeps the ids
/// apart where they were apart and the new one is none of them.
pub proof fn lemma_insert_ids(s: Seq<TodoView>, p: int, x: TodoView)
    requires
        0 <= p <= s.len(),
    ensures
        forall|id: Seq<char>| has_id(s.insert(p, x), id) <==> has_id(s, id) || id == x.id,
        ids_unique(s) && !has_id(s, x.id) ==> ids_unique(s.insert(p, x)),
{
    let r = s.insert(p, x);
    assert forall|id: Seq<char>| has_id(r, id) <==> has_id(s, id) || id == x.id by {
        if has_id(r, id) {
            let i = choose|i: int| 0 <= i < r.len() && (#[trigger] r[i]).id == id;
            if i < p {
                assert(s[i] == r[i]);
            } else if i > p {
                assert(s[i - 1] == r[i]);
            }
        }
        if has_id(s, id) {
            let i = choose|i: int| 0 <= i < s.len() && (#[trigger] s[i]).id == id;
            if i < p {
                assert(r[i] == s[i]);
            } else {
                assert(r[i + 1] == s[i]);
            }
        }
        if id == x.id {
            assert(r[p] == x);
        }
    }
    if ids_unique(s) && !has_id(s, x.id) {
        assert forall|i: int, j: int| 0 <= i < j < r.len() implies (#[trigger] r[i]).id != (
        #[trigger] r[j]).id by {
            let a = if i < p {
                i
            } else {
                i - 1
            };
            let b = if j < p {
                j
            } else {
                j - 1
            };
            if i != p {
                assert(r[i] == s[a]);
            }
            if j != p {
                assert(r[j] == s[b]);
            }
        }
    }
}

/// Sorting keeps the ids: each id that a record has before, a record has
/// after, and ids that were apart stay apart.
pub proof fn lemma_sort_keeps_ids(s: Seq<TodoView>)
    ensures
        forall|id: Seq<char>| has_id(sort_by_created(s), id) <==> has_id(s, id),
        ids_unique(s) ==> ids_unique(sort_by_created(s)),
    decreases s.len(),
{
    if s.len() > 0 {
        let front = s.drop_last();
        let x = s.last();
        let sorted = sort_by_created(front);
        lemma_sort_keeps_ids(front);
        lemma_insert_by_created(sorted, x);
        lemma_insert_ids(sorted, insertion_point(sorted, x), x);
        assert forall|id: Seq<char>| has_id(s, id) <==> has_id(front, id) || id == x.id by {
            if has_id(s, id) {
                let i = choose|i: int| 0 <= i < s.len() && (#[trigger] s[i]).id == id;
                if i < front.len() {
                    assert(front[i] == s[i]);
                }
            }
            if has_id(front, id) {
                let i = choose|i: int| 0 <= i < front.len() && (#[trigger] front[i]).id == id;
                assert(s[i] == front[i]);
            }
            if id == x.id {
                assert(s[s.len() - 1] == x);
            }
        }
        if ids_unique(s) {
            assert(ids_unique(front)) by {
                assert forall|i: int, j: int| 0 <= i < j < front.len() implies (
                #[trigger] front[i]).id != (#[trigger] front[j]).id by {
                    assert(front[i] == s[i] && front[j] == s[j]);
                }
            }
            assert(!has_id(front, x.id)) by {
                if has_id(front, x.id) {
                    let i = choose|i: int| 0 <= i < front.len() && (#[trigger] front[i]).id == x.id;
                    assert(s[i] == front[i]);
                    assert(s[s.len() - 1] == x);
                }
            }
        }
    }
}

/// Putting a record in the place of one with the same id, and taking a
/// record away, keep ids apart that were apart.
pub proof fn lemma_ids_kept(s: Seq<TodoView>, i: int, x: TodoView)
    requires
        0 <= i < s.len(),
        ids_unique(s),
    ensures
        ids_unique(s.remove(i)),
        x.id == s[i].id ==> ids_unique(s.update(i, x)),
{
    let r = s.remove(i);
    assert forall|a: int, b: int| 0 <= a < b < r.len() implies (#[trigger] r[a]).id != (
    #[trigger] r[b]).id by {
        let a0 = if a < i {
            a
        } else {
            a + 1
        };
        let b0 = if b < i {
            b
        } else {
            b + 1
        };
        assert(r[a] == s[a0] && r[b] == s[b0]);
    }
    if x.id == s[i].id {
        let u = s.update(i, x);
        assert forall|a: int, b: int| 0 <= a < b < u.len() implies (#[trigger] u[a]).id != (
        #[trigger] u[b]).id by {
            assert(u[a].id == s[a].id && u[b].id == s[b].id);
        }
    }
}

impl Store {
    /// Adds a record with the id `id`, the fields `fm` and the body `body`.
    /// Its file name is made of the id and the slug of the title. The new
    /// record takes its place behind the records created no later than it.
    pub fn create_with_id(&mut self, id: String, fm: &Frontmatter, body: Option<&str>)
        ensures
            final(self)@ == sort_by_created(
                old(self)@.push(new_record(id@, fm@, slice_text(body))),
            ),
            final(self)@ == old(self)@.insert(
                insertion_point(old(self)@, new_record(id@, fm@, slice_text(body))),
                new_record(id@, fm@, slice_text(body)),
            ),
            final(self).skipped_count() == old(self).skipped_count(),
    {
        proof {
            use_type_invariant(&*self);
        }
        let slug = slugify(fm.title.as_str());
        let mut filename = id.clone();
        if !slug.as_str().is_empty() {
            filename.append("-");
            filename.append(slug.as_str());
        }
        filename.append(".md");
        proof {
            reveal_strlit("-");
            reveal_strlit(".md");
            assert("-"@ =~= seq!['-']);
            assert(".md"@ =~= md_suffix());
            assert(filename@ =~= filename_for(id@, fm@.title));
        }
        let todo = Todo {
            id,
            filename,
            frontmatter: fm.clone(),
            body: match body {
                Some(b) => Some(b.to_owned()),
                None => None,
            },
        };
        let ghost record = new_record(id@, fm@, slice_text(body));
        assert(todo@ == record);
        let mut cache: Vec<Todo> = Vec::new();
        core::mem::swap(&mut self.cache, &mut cache);
        let ghost before = views(cache@);
        cache.push(todo);
        assert(views(cache@) =~= before.push(record));
        let mut sorted = sort_todos(cache);
        core::mem::swap(&mut self.cache, &mut sorted);
        proof {
            assert(before.push(record).drop_last() == before);
            lemma_sort_by_created(before);
            lemma_insert_by_created(before, record);
        }
    }

    /// Adds a record with the fields `fm` and the body `body` under a fresh
    /// id, drawn at random among those that no record of the cache has, and
    /// returns the id. Where no free id turns up, nothing changes; that can
    /// happen only where some record has an id that a draw can give.
    pub fn create(&mut self, fm: &Frontmatter, body: Option<&str>) -> (r: Result<
        String,
        StoreError,
    >)
        ensures
            final(self).skipped_count() == old(self).skipped_count(),
            no_id_taken(old(self)@) ==> r is Ok,
            match r {
                Ok(id) => {
                    &&& is_id(id@)
                    &&& !has_id(old(self)@, id@)
                    &&& final(self)@ == sort_by_created(
                        old(self)@.push(new_record(id@, fm@, slice_text(body))),
                    )
                    &&& final(self)@ == old(self)@.insert(
                        insertion_point(old(self)@, new_record(id@, fm@, slice_text(body))),
                        new_record(id@, fm@, slice_text(body)),
                    )
                    &&& ids_unique(old(self)@) ==> ids_unique(final(self)@)
                },
                Err(e) => e@ == StoreErrorView::Exhausted && final(self)@ == old(self)@,
            },
    {
        let this: &Store = &*self;
        let is_taken = |candidate: &str| -> (taken: bool)
            ensures
                taken == has_id(this@, candidate@),
            { this.contains_id(candidate) };
        let (picked, draws) = generate_id(is_taken);
        match picked {
            Some(id) => {
                proof {
                    assert(answers(is_taken, id@, false));
                    let record = new_record(id@, fm@, slice_text(body));
                    lemma_insert_by_created(self@, record);
                    lemma_insert_ids(self@, insertion_point(self@, record), record);
                }
                self.create_with_id(id.clone(), fm, body);
                Ok(id)
            },
            None => {
                proof {
                    // The first draw was turned down, so a record has its id.
                    assert(answers(is_taken, hex4(draws@[0]), true));
                }
                Err(StoreError::Exhausted)
            },
        }
    }
}

/// Taking a record out of the order of creation leaves that order, and so
/// does putting another record with the same time of creation in its place.
pub proof fn lemma_sorted_kept(s: Seq<TodoView>, i: int, x: TodoView)
    requires
        is_sorted(s),
        0 <= i < s.len(),
    ensures
        is_sorted(s.remove(i)),
        x.frontmatter.created == s[i].frontmatter.created ==> is_sorted(s.update(i, x)),
{
    let r = s.remove(i);
    assert forall|a: int, b: int| 0 <= a <= b < r.len() implies r[a].frontmatter.created.ordinal()
        <= r[b].frontmatter.created.ordinal() by {
        let a0 = if a < i {
            a
        } else {
            a + 1
        };
        let b0 = if b < i {
            b
        } else {
            b + 1
        };
        assert(r[a] == s[a0] && r[b] == s[b0]);
    }
    if x.frontmatter.created == s[i].frontmatter.created {
        let u = s.update(i, x);
        assert forall|a: int, b: int|
            0 <= a <= b < u.len() implies u[a].frontmatter.created.ordinal()
            <= u[b].frontmatter.created.ordinal() by {
            assert(u[a].frontmatter.created == s[a].frontmatter.created);
            assert(u[b].frontmatter.created == s[b].frontmatter.created);
        }
    }
}

/// The record `t` with the fields `fm` and the body `body` in place of its
/// own.
pub open spec fn with_content(t: TodoView, fm: FrontmatterView, body: Option<Seq<char>>) -> TodoView {
    TodoView { id: t.id, filename: t.filename, frontmatter: fm, body }
}

impl Store {
    /// Puts `todo` in the place of the record at `i` and restores the order
    /// of creation.
    fn replace_at(&mut self, i: usize, todo: Todo)
        requires
            i < old(self)@.len(),
        ensures
            final(self)@ == sort_by_created(old(self)@.update(i as int, todo@)),
            todo@.frontmatter.created == old(self)@[i as int].frontmatter.created ==> final(self)@
                == old(self)@.update(i as int, todo@),
            todo@.id == old(self)@[i as int].id && ids_unique(old(self)@) ==> ids_unique(
                final(self)@,
            ),
            final(self).skipped_count() == old(self).skipped_count(),
    {
        proof {
            use_type_invariant(&*self);
        }
        let mut cache: Vec<Todo> = Vec::new();
        core::mem::swap(&mut self.cache, &mut cache);
        let ghost before = views(cache@);
        cache.remove(i);
        cache.insert(i, todo);
        assert(views(cache@) =~= before.update(i as int, todo@));
        let mut sorted = sort_todos(cache);
        core::mem::swap(&mut self.cache, &mut sorted);
        proof {
            lemma_sorted_kept(before, i as int, todo@);
            lemma_sort_by_created(before.update(i as int, todo@));
            lemma_sort_keeps_ids(before.update(i as int, todo@));
            if ids_unique(before) {
                lemma_ids_kept(before, i as int, todo@);
            }
        }
    }

    /// Puts `todo` in the place of the first record of the cache with its
    /// id, and restores the order of creation where the time of creation
    /// has changed. Where no record has that id, the record is stale and
    /// nothing changes.
    pub fn save(&mut self, todo: &Todo) -> (r: Result<(), StoreError>)
        ensures
            final(self).skipped_count() == old(self).skipped_count(),
            ids_unique(old(self)@) ==> ids_unique(final(self)@),
            match position_of(old(self)@, todo@.id) {
                Some(i) => {
                    &&& r is Ok
                    &&& final(self)@ == sort_by_created(old(self)@.update(i, todo@))
                    &&& todo@.frontmatter.created == old(self)@[i].frontmatter.created ==> final(self)@ == old(self)@.update(i, todo@)
                },
                None => {
                    &&& r matches Err(e) && e@ == (StoreErrorView::Stale { id: todo@.id })
                    &&& final(self)@ == old(self)@
                },
            },
    {
        let mut i: usize = 0;
        while i < self.cache.len()
            invariant
                i <= self.cache.len(),
                *self == *old(self),
                position_of(self@.take(i as int), todo@.id) is None,
            decreases self.cache.len() - i,
        {
            proof {
                assert(self@.take(i + 1).drop_last() == self@.take(i as int));
                assert(self@.take(i + 1).last() == self.cache@[i as int]@);
            }
            if same_text(self.cache[i].id.as_str(), todo.id.as_str()) {
                proof {
                    lemma_position_of(self@.take(i + 1), todo@.id);
                    lemma_position_prefix(self@, i + 1, todo@.id);
                }
                self.replace_at(i, todo.clone());
                return Ok(());
            }
            i += 1;
        }
        assert(self@.take(self.cache.len() as int) == self@);
        Err(StoreError::Stale { id: todo.id.clone() })
    }

    /// Takes the one record whose id begins with `id` out of the cache and
    /// returns it.
    pub fn delete(&mut self, id: &str) -> (r: Result<Todo, StoreError>)
        ensures
            final(self).skipped_count() == old(self).skipped_count(),
            ids_unique(old(self)@) ==> ids_unique(final(self)@),
            match r {
                Ok(todo) => {
                    &&& find_spec(old(self)@, id@) is Ok
                    &&& todo@ == old(self)@[find_spec(old(self)@, id@)->Ok_0]
                    &&& final(self)@ == old(self)@.remove(find_spec(old(self)@, id@)->Ok_0)
                },
                Err(e) => find_spec(old(self)@, id@) == Err::<int, StoreErrorView>(e@) && final(self)@ == old(self)@,
            },
    {
        proof {
            use_type_invariant(&*self);
        }
        match self.find_index(id) {
            Ok(i) => {
                let mut cache: Vec<Todo> = Vec::new();
                core::mem::swap(&mut self.cache, &mut cache);
                let ghost before = views(cache@);
                let todo = cache.remove(i);
                proof {
                    assert(views(cache@) =~= before.remove(i as int));
                    lemma_sorted_kept(before, i as int, todo@);
                    if ids_unique(before) {
                        lemma_ids_kept(before, i as int, todo@);
                    }
                }
                core::mem::swap(&mut self.cache, &mut cache);
                Ok(todo)
            },
            Err(e) => Err(e),
        }
    }

    /// Gives the one record whose id begins with `id` the fields `fm` and
    /// the body `body`, as read from its file again, and restores the order
    /// of creation where the time of creation has changed.
    pub fn refresh(&mut self, id: &str, fm: Frontmatter, body: Option<String>) -> (r: Result<
        (),
        StoreError,
    >)
        ensures
            final(self).skipped_count() == old(self).skipped_count(),
            ids_unique(old(self)@) ==> ids_unique(final(self)@),
            match find_spec(old(self)@, id@) {
                Ok(i) => {
                    &&& r is Ok
                    &&& final(self)@ == sort_by_created(
                        old(self)@.update(i, with_content(old(self)@[i], fm@, text_of(body))),
                    )
                    &&& fm@.created == old(self)@[i].frontmatter.created ==> final(self)@ == old(self)@.update(i, with_content(old(self)@[i], fm@, text_of(body)))
                },
                Err(e) => r matches Err(err) && err@ == e && final(self)@ == old(self)@,
            },
    {
        match self.find_index(id) {
            Ok(i) => {
                let todo = Todo {
                    id: self.cache[i].id.clone(),
                    filename: self.cache[i].filename.clone(),
                    frontmatter: fm,
                    body,
                };
                self.replace_at(i, todo);
                Ok(())
            },
            Err(e) => Err(e),
        }
    }
}

/// The first record with an id among the first `n` records of `s` is the
/// first with that id in all of `s`.
proof fn lemma_position_prefix(s: Seq<TodoView>, n: int, id: Seq<char>)
    requires
        0 <= n <= s.len(),
        position_of(s.take(n), id) is Some,
    ensures
        position_of(s, id) == position_of(s.take(n), id),
    decreases s.len() - n,
{
    if n < s.len() {
        assert(s.take(n + 1).drop_last() == s.take(n));
        lemma_position_prefix(s, n + 1, id);
    } else {
        assert(s.take(n) == s);
    }
}

impl Store {
    /// The first record with the id `id`, whole.
    pub fn get(&self, id: &str) -> (r: Option<Todo>)
        ensures
            match position_of(self@, id@) {
                Some(i) => r matches Some(t) && t@ == self@[i],
                None => r is None,
            },
            r is Some <==> has_id(self@, id@),
    {
        let mut i: usize = 0;
        while i < self.cache.len()
            invariant
                i <= self.cache.len(),
                position_of(self@.take(i as int), id@) is None,
            decreases self.cache.len() - i,
        {
            proof {
                assert(self@.take(i + 1).drop_last() == self@.take(i as int));
                assert(self@.take(i + 1).last() == self.cache@[i as int]@);
            }
            if same_text(self.cache[i].id.as_str(), id) {
                proof {
                    lemma_position_prefix(self@, i + 1, id@);
                    lemma_position_of(self@, id@);
                }
                return Some(self.cache[i].clone());
            }
            i += 1;
        }
        proof {
            assert(self@.take(self.cache.len() as int) == self@);
            lemma_position_of(self@, id@);
        }
        None
    }
}

/// Where a record is put into a cache that has none with its id, it is the
/// first, and the only one, with that id.
pub proof fn lemma_inserted_is_found(s: Seq<TodoView>, p: int, x: TodoView)
    requires
        0 <= p <= s.len(),
        !has_id(s, x.id),
    ensures
        position_of(s.insert(p, x), x.id) == Some(p),
{
    let r = s.insert(p, x);
    lemma_position_of(r, x.id);
    assert(r[p] == x);
    let q = position_of(r, x.id)->Some_0;
    if q < p {
        assert(r[q] == s[q]);
    } else if q > p {
        assert(r[q] == s[q - 1]);
    }
}

} // verus!
