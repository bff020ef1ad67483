//! Records, their points in time, and the framing of a record's file.
use vstd::prelude::*;
use crate::text::{blank_from, chars_of, is_blank, string_of_range};

verus! {

/// Whether a task is still to be done.
#[derive(Clone, Copy, PartialEq, Eq, Structural, Debug)]
pub enum Status {
    Open,
    Done,
}

/// A local date and time of day, down to the nanosecond.
#[derive(Clone, Copy, PartialEq, Eq, Structural, Debug)]
pub struct Timestamp {
    pub year: i16,
    pub month: i8,
    pub day: i8,
    pub hour: i8,
    pub minute: i8,
    pub second: i8,
    pub subsec_nanosecond: i32,
}

/// Two numerals of two digits compare by the leading digit first.
proof fn lemma_numeral(a_hi: int, a_lo: int, b_hi: int, b_lo: int, radix: int)
    requires
        0 <= a_lo < radix,
        0 <= b_lo < radix,
    ensures
        a_hi * radix + a_lo < b_hi * radix + b_lo <==> a_hi < b_hi || (a_hi == b_hi && a_lo < b_lo),
        a_hi * radix + a_lo == b_hi * radix + b_lo <==> a_hi == b_hi && a_lo == b_lo,
{
    assert(a_hi < b_hi ==> a_hi * radix + radix <= b_hi * radix) by (nonlinear_arith)
        requires
            radix > 0,
    ;
    assert(b_hi < a_hi ==> b_hi * radix + radix <= a_hi * radix) by (nonlinear_arith)
        requires
            radix > 0,
    ;
}

impl Timestamp {
    /// The fields lie where a calendar and a clock put them.
    pub open spec fn in_range(self) -> bool {
        &&& -9999 <= self.year <= 9999
        &&& 1 <= self.month <= 12
        &&& 1 <= self.day <= 31
        &&& 0 <= self.hour <= 23
        &&& 0 <= self.minute <= 59
        &&& 0 <= self.second <= 59
        &&& 0 <= self.subsec_nanosecond <= 999_999_999
    }

    /// `self` comes before `other`: the first field in which they differ,
    /// from the year down to the nanosecond, is smaller in `self`.
    pub open spec fn earlier(self, other: Timestamp) -> bool {
        if self.year != other.year {
            self.year < other.year
        } else if self.month != other.month {
            self.month < other.month
        } else if self.day != other.day {
            self.day < other.day
        } else if self.hour != other.hour {
            self.hour < other.hour
        } else if self.minute != other.minute {
            self.minute < other.minute
        } else if self.second != other.second {
            self.second < other.second
        } else {
            self.subsec_nanosecond < other.subsec_nanosecond
        }
    }

    /// The place of `self` among all points in time, as one number: the
    /// fields, each moved to start at zero, read as digits of one numeral.
    pub open spec fn ordinal(self) -> int {
        let date = (self.year as int * 256 + (self.month + 128)) * 256 + (self.day + 128);
        let time = ((self.hour + 128) * 256 + (self.minute + 128)) * 256 + (self.second + 128);
        (date * 0x100_0000 + time) * 0x1_0000_0000 + (self.subsec_nanosecond + 0x8000_0000)
    }

    /// The ordinal orders points in time as `earlier` does, and tells them
    /// apart.
    pub proof fn lemma_ordinal(self, other: Timestamp)
        ensures
            self.ordinal() < other.ordinal() <==> self.earlier(other),
            self.ordinal() == other.ordinal() <==> self == other,
    {
        let (a, b) = (self, other);
        let a1 = a.year as int * 256 + (a.month + 128);
        let b1 = b.year as int * 256 + (b.month + 128);
        lemma_numeral(a.year as int, a.month + 128, b.year as int, b.month + 128, 256);
        let a2 = a1 * 256 + (a.day + 128);
        let b2 = b1 * 256 + (b.day + 128);
        lemma_numeral(a1, a.day + 128, b1, b.day + 128, 256);
        let a3 = (a.hour + 128) * 256 + (a.minute + 128);
        let b3 = (b.hour + 128) * 256 + (b.minute + 128);
        lemma_numeral(a.hour + 128, a.minute + 128, b.hour + 128, b.minute + 128, 256);
        let a4 = a3 * 256 + (a.second + 128);
        let b4 = b3 * 256 + (b.second + 128);
        lemma_numeral(a3, a.second + 128, b3, b.second + 128, 256);
        let a5 = a2 * 0x100_0000 + a4;
        let b5 = b2 * 0x100_0000 + b4;
        lemma_numeral(a2, a4, b2, b4, 0x100_0000);
        lemma_numeral(
            a5,
            a.subsec_nanosecond + 0x8000_0000,
            b5,
            b.subsec_nanosecond + 0x8000_0000,
            0x1_0000_0000,
        );
    }

    /// The ordinal of `self`.
    pub fn sort_key(&self) -> (k: i128)
        ensures
            k == self.ordinal(),
    {
        let date: i128 = (self.year as i128 * 256 + (self.month as i128 + 128)) * 256 + (
        self.day as i128 + 128);
        let time: i128 = ((self.hour as i128 + 128) * 256 + (self.minute as i128 + 128)) * 256 + (
        self.second as i128 + 128);
        (date * 0x100_0000 + time) * 0x1_0000_0000 + (self.subsec_nanosecond as i128 + 0x8000_0000)
    }

    /// Whether `self` is `other` or comes before it.
    pub fn not_after(&self, other: &Timestamp) -> (r: bool)
        ensures
            r == (self.ordinal() <= other.ordinal()),
            r == (self == other || self.earlier(*other)),
    {
        proof {
            self.lemma_ordinal(*other);
        }
        self.sort_key() <= other.sort_key()
    }
}

/// The text of an optional string.
pub open spec fn text_of(s: Option<String>) -> Option<Seq<char>> {
    match s {
        Some(t) => Some(t@),
        None => None,
    }
}

/// A copy of an optional string.
pub fn clone_text(s: &Option<String>) -> (r: Option<String>)
    ensures
        r == *s,
        text_of(r) == text_of(*s),
{
    match s {
        Some(t) => Some(t.clone()),
        None => None,
    }
}

/// The fields of a record that its file holds in the block at its top.
#[derive(Debug)]
pub struct Frontmatter {
    pub title: String,
    pub created: Timestamp,
    pub status: Status,
    /// To whom the task is assigned. An empty name stands for "assigned, to
    /// nobody by name"; no name at all for "not assigned".
    pub assigned: Option<String>,
    pub assigned_at: Option<Timestamp>,
    pub done_at: Option<Timestamp>,
}

/// What a `Frontmatter` holds, with texts as sequences of characters.
pub struct FrontmatterView {
    pub title: Seq<char>,
    pub created: Timestamp,
    pub status: Status,
    pub assigned: Option<Seq<char>>,
    pub assigned_at: Option<Timestamp>,
    pub done_at: Option<Timestamp>,
}

impl View for Frontmatter {
    type V = FrontmatterView;

    open spec fn view(&self) -> FrontmatterView {
        FrontmatterView {
            title: self.title@,
            created: self.created,
            status: self.status,
            assigned: text_of(self.assigned),
            assigned_at: self.assigned_at,
            done_at: self.done_at,
        }
    }
}

impl Clone for Frontmatter {
    fn clone(&self) -> (r: Self)
        ensures
            r == *self,
    {
        Frontmatter {
            title: self.title.clone(),
            created: self.created,
            status: self.status,
            assigned: clone_text(&self.assigned),
            assigned_at: self.assigned_at,
            done_at: self.done_at,
        }
    }
}

/// One record: a task with its id, the name of its file, its fields and its
/// free text.
#[derive(Debug)]
pub struct Todo {
    pub id: String,
    pub filename: String,
    pub frontmatter: Frontmatter,
    pub body: Option<String>,
}

/// What a `Todo` holds, with texts as sequences of characters.
pub struct TodoView {
    pub id: Seq<char>,
    pub filename: Seq<char>,
    pub frontmatter: FrontmatterView,
    pub body: Option<Seq<char>>,
}

impl View for Todo {
    type V = TodoView;

    open spec fn view(&self) -> TodoView {
        TodoView {
            id: self.id@,
            filename: self.filename@,
            frontmatter: self.frontmatter@,
            body: text_of(self.body),
        }
    }
}

impl Clone for Todo {
    fn clone(&self) -> (r: Self)
        ensures
            r == *self,
    {
        Todo {
            id: self.id.clone(),
            filename: self.filename.clone(),
            frontmatter: self.frontmatter.clone(),
            body: clone_text(&self.body),
        }
    }
}

impl TodoView {
    /// The task is still to be done.
    pub open spec fn is_open(self) -> bool {
        self.frontmatter.status == Status::Open
    }

    /// The task is assigned, by name or not.
    pub open spec fn is_assigned(self) -> bool {
        self.frontmatter.assigned is Some
    }
}

impl Todo {
    /// The title of the task.
    pub fn title(&self) -> (r: &str)
        ensures
            r@ == self@.frontmatter.title,
    {
        self.frontmatter.title.as_str()
    }

    /// Whether the task is still to be done.
    pub fn is_open(&self) -> (r: bool)
        ensures
            r == self@.is_open(),
    {
        self.frontmatter.status == Status::Open
    }

    /// Whether the task is assigned, by name or not.
    pub fn is_assigned(&self) -> (r: bool)
        ensures
            r == self@.is_assigned(),
    {
        self.frontmatter.assigned.is_some()
    }
}

/// Why a file does not frame a record.
#[derive(Clone, Copy, PartialEq, Eq, Structural, Debug)]
pub enum ParseError {
    /// The file does not begin with the opening marker line.
    MissingOpening,
    /// No closing marker line follows the opening one.
    MissingClosing,
}

impl ParseError {
    /// The error in words.
    pub fn message(&self) -> (r: String)
        ensures
            r@ == match *self {
                ParseError::MissingOpening => "missing opening ---"@,
                ParseError::MissingClosing => "missing closing ---"@,
            },
    {
        match self {
            ParseError::MissingOpening => "missing opening ---".to_owned(),
            ParseError::MissingClosing => "missing closing ---".to_owned(),
        }
    }
}

/// The line that opens the block of fields, with its line end.
pub open spec fn marker_line() -> Seq<char> {
    seq!['-', '-', '-', '\n']
}

/// The line that closes the block of fields, from the end of the line before
/// it to its own line end.
pub open spec fn closing_marker() -> Seq<char> {
    seq!['\n', '-', '-', '-', '\n']
}

/// `pat` stands in `s` at index `i`.
pub open spec fn occurs_at(s: Seq<char>, pat: Seq<char>, i: int) -> bool {
    0 <= i && i + pat.len() <= s.len() && s.subrange(i, i + pat.len()) == pat
}

/// The first index from `from` on at which `pat` stands in `s`.
pub open spec fn find_from(s: Seq<char>, pat: Seq<char>, from: int) -> Option<int>
    decreases s.len() - from + 1,
{
    if from < 0 || from + pat.len() > s.len() {
        None
    } else if occurs_at(s, pat, from) {
        Some(from)
    } else {
        find_from(s, pat, from + 1)
    }
}

/// The first index at which `pat` stands in `s`.
pub open spec fn find(s: Seq<char>, pat: Seq<char>) -> Option<int> {
    find_from(s, pat, 0)
}

/// `find_from` gives the least index from `from` on at which `pat` stands,
/// and nothing exactly where it stands at none.
pub proof fn lemma_find_from(s: Seq<char>, pat: Seq<char>, from: int)
    requires
        0 <= from,
    ensures
        match find_from(s, pat, from) {
            Some(k) => from <= k && occurs_at(s, pat, k) && forall|j: int|
                from <= j < k ==> !occurs_at(s, pat, j),
            None => forall|j: int| from <= j ==> !occurs_at(s, pat, j),
        },
    decreases s.len() - from + 1,
{
    if from + pat.len() <= s.len() && !occurs_at(s, pat, from) {
        lemma_find_from(s, pat, from + 1);
    }
}

/// What follows the closing marker is the body, unless it is blank.
pub open spec fn body_of(after: Seq<char>) -> Option<Seq<char>> {
    if is_blank(after) {
        None
    } else {
        Some(after)
    }
}

/// What a file frames: the block of fields between the two marker lines,
/// without the end of its last line, and the body behind them.
pub open spec fn parse_file_spec(raw: Seq<char>) -> Result<
    (Seq<char>, Option<Seq<char>>),
    ParseError,
> {
    if !marker_line().is_prefix_of(raw) {
        Err(ParseError::MissingOpening)
    } else {
        let rest = raw.skip(4);
        match find(rest, closing_marker()) {
            None => Err(ParseError::MissingClosing),
            Some(k) => Ok((rest.take(k), body_of(rest.skip(k + 5)))),
        }
    }
}

/// The texts of what `parse_file` returns.
pub open spec fn framed_view(r: Result<(String, Option<String>), ParseError>) -> Result<
    (Seq<char>, Option<Seq<char>>),
    ParseError,
> {
    match r {
        Ok((block, body)) => Ok((block@, text_of(body))),
        Err(e) => Err(e),
    }
}

/// Whether `pat` stands in `v` at index `i`.
fn stands_at(v: &Vec<char>, pat: &Vec<char>, i: usize) -> (r: bool)
    requires
        i + pat.len() <= usize::MAX,
    ensures
        r == occurs_at(v@, pat@, i as int),
{
    if pat.len() > v.len() || i > v.len() - pat.len() {
        return false;
    }
    let mut j: usize = 0;
    while j < pat.len()
        invariant
            j <= pat.len(),
            i + pat.len() <= v.len(),
            forall|k: int| 0 <= k < j ==> v@[i + k] == pat@[k],
        decreases pat.len() - j,
    {
        if v[i + j] != pat[j] {
            assert(v@.subrange(i as int, i + pat.len())[j as int] != pat@[j as int]);
            return false;
        }
        j += 1;
    }
    assert(v@.subrange(i as int, i + pat.len()) =~= pat@);
    true
}

/// Splits the text of a file into the block of fields and the body.
///
/// The file has to begin with a line `---`, and a later line `---` has to
/// close the block. What follows that line is the body, word for word; a
/// body of nothing but white space counts as no body.
pub fn parse_file(raw: &str) -> (r: Result<(String, Option<String>), ParseError>)
    ensures
        framed_view(r) == parse_file_spec(raw@),
{
    let v = chars_of(raw);
    let opening = chars_of("---\n");
    let closing = chars_of("\n---\n");
    proof {
        reveal_strlit("---\n");
        reveal_strlit("\n---\n");
        assert(opening@ =~= marker_line());
        assert(closing@ =~= closing_marker());
    }
    if !stands_at(&v, &opening, 0) {
        assert(!marker_line().is_prefix_of(v@)) by {
            if marker_line().is_prefix_of(v@) {
                assert(v@.subrange(0, 4) =~= marker_line());
            }
        }
        return Err(ParseError::MissingOpening);
    }
    assert(marker_line().is_prefix_of(v@)) by {
        assert(v@.subrange(0, 4) == marker_line());
        assert forall|i: int| 0 <= i < 4 implies marker_line()[i] == v@[i] by {
            assert(v@.subrange(0, 4)[i] == v@[i]);
        }
    }
    let ghost rest = v@.skip(4);
    let mut k: usize = 4;
    while v.len() >= 5 && k <= v.len() - 5
        invariant
            4 <= k,
            v@ == raw@,
            marker_line().is_prefix_of(v@),
            rest == v@.skip(4),
            closing@ == closing_marker(),
            find(rest, closing_marker()) == find_from(rest, closing_marker(), k - 4),
        decreases v.len() - k,
    {
        if stands_at(&v, &closing, k) {
            assert(occurs_at(rest, closing_marker(), k - 4)) by {
                assert(rest.subrange(k - 4, k - 4 + 5) =~= v@.subrange(k as int, k + 5));
            }
            let block = string_of_range(&v, 4, k);
            assert(v@.subrange(4, k as int) =~= rest.take(k - 4));
            let ghost after = rest.skip(k - 4 + 5);
            assert(v@.skip(k + 5) =~= after);
            assert(v@.subrange(k + 5, v.len() as int) =~= after);
            let blank = blank_from(&v, k + 5);
            let body = if blank {
                None
            } else {
                Some(string_of_range(&v, k + 5, v.len()))
            };
            assert(text_of(body) == body_of(after));
            assert(find(rest, closing_marker()) == Some(k - 4));
            return Ok((block, body));
        }
        assert(!occurs_at(rest, closing_marker(), k - 4)) by {
            assert(rest.subrange(k - 4, k - 4 + 5) =~= v@.subrange(k as int, k + 5));
        }
        k += 1;
    }
    Err(ParseError::MissingClosing)
}

/// The block of fields with its last line ended: a line end is put behind
/// it where it has none.
pub open spec fn ended(block: Seq<char>) -> Seq<char> {
    if block.len() > 0 && block.last() == '\n' {
        block
    } else {
        block.push('\n')
    }
}

/// The text of a file: the opening marker line, the block of fields with its
/// last line ended, the closing marker line, and the body, where there is
/// one, word for word.
pub open spec fn render_file_spec(block: Seq<char>, body: Option<Seq<char>>) -> Seq<char> {
    marker_line() + ended(block) + marker_line() + match body {
        Some(b) => b,
        None => Seq::empty(),
    }
}

/// Whether `s` ends with a line end.
fn ends_with_newline(s: &str) -> (r: bool)
    ensures
        r == (s@.len() > 0 && s@.last() == '\n'),
{
    let mut last: Option<char> = None;
    for c in it: s.chars()
        invariant
            it.seq() == s@,
            last == if it.index() > 0 {
                Some(s@[it.index() - 1])
            } else {
                None
            },
    {
        last = Some(c);
    }
    match last {
        Some(c) => c == '\n',
        None => false,
    }
}

/// Writes the text of a file around `block`, the block of fields.
pub fn render_file(block: &str, body: Option<&str>) -> (out: String)
    ensures
        out@ == render_file_spec(block@, match body {
            Some(b) => Some(b@),
            None => None,
        }),
{
    let mut out = String::new();
    out.append("---\n");
    out.append(block);
    if !ends_with_newline(block) {
        out.append("\n");
    }
    out.append("---\n");
    proof {
        reveal_strlit("---\n");
        reveal_strlit("\n");
        assert("---\n"@ =~= marker_line());
        assert("\n"@ =~= seq!['\n']);
        assert(out@ =~= marker_line() + ended(block@) + marker_line());
    }
    match body {
        Some(b) => {
            out.append(b);
        },
        None => {
            assert(out@ =~= out@ + Seq::<char>::empty());
        },
    }
    out
}

/// A block of fields that `parse_file` finds again behind `render_file`:
/// none of its lines after the first reads `---`.
pub open spec fn is_block(block: Seq<char>) -> bool {
    forall|i: int|
        0 <= i < ended(block).len() - 1 ==> !occurs_at(
            ended(block) + marker_line(),
            closing_marker(),
            i,
        )
}

/// A body with nothing in it counts as no body.
pub open spec fn normalized(body: Option<Seq<char>>) -> Option<Seq<char>> {
    match body {
        Some(b) if b.len() > 0 => Some(b),
        _ => None,
    }
}

/// Reading what was written gives the block back, without the end of its
/// last line, whatever the body is; and what follows the closing marker line
/// is the body as it was written, taken for none where it is blank.
pub proof fn lemma_block_comes_back(block: Seq<char>, body: Option<Seq<char>>)
    requires
        is_block(block),
    ensures
        parse_file_spec(render_file_spec(block, body)) == Ok::<
            (Seq<char>, Option<Seq<char>>),
            ParseError,
        >(
            (
                ended(block).drop_last(),
                body_of(
                    match body {
                        Some(b) => b,
                        None => Seq::empty(),
                    },
                ),
            ),
        ),
{
    let lines = ended(block);
    let tail = match body {
        Some(b) => b,
        None => Seq::empty(),
    };
    let raw = render_file_spec(block, body);
    let rest = raw.skip(4);
    let k = lines.len() - 1;
    assert(marker_line().is_prefix_of(raw));
    assert(rest =~= lines + marker_line() + tail);
    assert(occurs_at(rest, closing_marker(), k)) by {
        assert(rest.subrange(k, k + 5) =~= closing_marker());
    }
    assert forall|j: int| 0 <= j < k implies !occurs_at(rest, closing_marker(), j) by {
        assert(!occurs_at(lines + marker_line(), closing_marker(), j));
        assert(rest.subrange(j, j + 5) =~= (lines + marker_line()).subrange(j, j + 5));
    }
    lemma_find_from(rest, closing_marker(), 0);
    assert(find(rest, closing_marker()) == Some(k));
    assert(rest.take(k) =~= lines.drop_last());
    assert(rest.skip(k + 5) =~= tail);
}

/// Reading what was written gives the block back, without the end of its
/// last line, and the body as it was, word for word; a body with nothing in
/// it comes back as none. A body of white space alone is left aside: it comes
/// back as none too.
pub proof fn lemma_render_then_parse(block: Seq<char>, body: Option<Seq<char>>)
    requires
        is_block(block),
        body matches Some(b) ==> b.len() == 0 || !is_blank(b),
    ensures
        parse_file_spec(render_file_spec(block, body)) == Ok::<
            (Seq<char>, Option<Seq<char>>),
            ParseError,
        >((ended(block).drop_last(), normalized(body))),
{
    lemma_block_comes_back(block, body);
}

/// A body with nothing in it is written as no body is, so the two read
/// alike.
pub proof fn lemma_empty_body_is_no_body(block: Seq<char>)
    ensures
        render_file_spec(block, Some(Seq::empty())) == render_file_spec(block, None),
        parse_file_spec(render_file_spec(block, Some(Seq::empty()))) == parse_file_spec(
            render_file_spec(block, None),
        ),
{
}

} // verus!
