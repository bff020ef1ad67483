//! Record ids and file-name slugs.
use vstd::prelude::*;
use crate::text::{
    is_ascii_char, lemma_lowercase_fixed, lowercase, push_char, string_of_range, to_lowercase,
};

verus! {

/// The longest slug, in characters.
pub const SLUG_MAX: usize = 50;

/// The characters a slug keeps: lowercase ASCII letters and digits.
pub open spec fn is_slug_char(c: char) -> bool {
    ('a' <= c <= 'z') || ('0' <= c <= '9')
}

/// `s` with every kept character in place and every run of other characters
/// turned into one hyphen, except a run at the very start, which vanishes.
pub open spec fn collapse(s: Seq<char>) -> Seq<char>
    decreases s.len(),
{
    if s.len() == 0 {
        Seq::empty()
    } else {
        let before = collapse(s.drop_last());
        if is_slug_char(s.last()) {
            before.push(s.last())
        } else if before.len() > 0 && before.last() != '-' {
            before.push('-')
        } else {
            before
        }
    }
}

/// `s` without a hyphen at its end.
pub open spec fn strip_trailing_hyphen(s: Seq<char>) -> Seq<char> {
    if s.len() > 0 && s.last() == '-' {
        s.drop_last()
    } else {
        s
    }
}

/// The first `SLUG_MAX` characters of `s`.
pub open spec fn capped(s: Seq<char>) -> Seq<char> {
    if s.len() > SLUG_MAX {
        s.take(SLUG_MAX as int)
    } else {
        s
    }
}

/// The slug of a text that is already in lowercase: collapsed, stripped of a
/// trailing hyphen, then cut to `SLUG_MAX` characters.
pub open spec fn slug_of(lower: Seq<char>) -> Seq<char> {
    capped(strip_trailing_hyphen(collapse(lower)))
}

/// The slug of a title.
pub open spec fn slugify_spec(title: Seq<char>) -> Seq<char> {
    slug_of(lowercase(title))
}

/// The shape of every slug: kept characters and single hyphens, no hyphen in
/// front.
pub open spec fn is_slug_shaped(s: Seq<char>) -> bool {
    &&& forall|i: int| 0 <= i < s.len() ==> is_slug_char(#[trigger] s[i]) || s[i] == '-'
    &&& s.len() > 0 ==> s[0] != '-'
    &&& forall|i: int| 0 <= i < s.len() - 1 ==> !(#[trigger] s[i] == '-' && s[i + 1] == '-')
}

/// Collapsing yields the shape of a slug.
pub proof fn lemma_collapse_shaped(s: Seq<char>)
    ensures
        is_slug_shaped(collapse(s)),
    decreases s.len(),
{
    if s.len() > 0 {
        lemma_collapse_shaped(s.drop_last());
    }
}

/// Collapsing leaves a text of that shape as it is.
pub proof fn lemma_collapse_fixed(s: Seq<char>)
    requires
        is_slug_shaped(s),
    ensures
        collapse(s) == s,
    decreases s.len(),
{
    if s.len() > 0 {
        let front = s.drop_last();
        assert(is_slug_shaped(front)) by {
            assert forall|i: int| 0 <= i < front.len() implies is_slug_char(#[trigger] front[i])
                || front[i] == '-' by {
                assert(front[i] == s[i]);
            }
            assert forall|i: int| 0 <= i < front.len() - 1 implies !(#[trigger] front[i] == '-'
                && front[i + 1] == '-') by {
                assert(front[i] == s[i]);
                assert(front[i + 1] == s[i + 1]);
            }
        }
        lemma_collapse_fixed(front);
        if !is_slug_char(s.last()) {
            assert(s.last() == '-');
            assert(s.len() > 1);
            assert(s[s.len() - 2] != '-');
            assert(front.last() == s[s.len() - 2]);
        }
        assert(front.push(s.last()) == s);
    }
}

/// Every slug has the shape of a slug and at most `SLUG_MAX` characters; it
/// ends in a hyphen only where the cut fell right behind one.
pub proof fn lemma_slug_shaped(title: Seq<char>)
    ensures
        is_slug_shaped(slugify_spec(title)),
        slugify_spec(title).len() <= SLUG_MAX,
        slugify_spec(title).len() > 0 && slugify_spec(title).last() == '-' ==> slugify_spec(
            title,
        ).len() == SLUG_MAX && strip_trailing_hyphen(collapse(lowercase(title))).len() > SLUG_MAX,
{
    let c = collapse(lowercase(title));
    lemma_collapse_shaped(lowercase(title));
    let t = strip_trailing_hyphen(c);
    assert(is_slug_shaped(t));
    if t.len() > 0 && t.last() == '-' {
        assert(c.len() >= 2);
        assert(c[c.len() - 2] == '-' && c[c.len() - 2 + 1] == '-');
    }
    let r = capped(t);
    assert(is_slug_shaped(r));
}

/// Slugifying a slug gives it back, unless it ends in a hyphen (where the
/// cut fell right behind one); then the hyphen goes.
pub proof fn lemma_slugify_idempotent(title: Seq<char>)
    ensures
        slugify_spec(slugify_spec(title)) == strip_trailing_hyphen(slugify_spec(title)),
        !(slugify_spec(title).len() > 0 && slugify_spec(title).last() == '-') ==> slugify_spec(
            slugify_spec(title),
        ) == slugify_spec(title),
{
    let s = slugify_spec(title);
    lemma_slug_shaped(title);
    assert forall|i: int| 0 <= i < s.len() implies is_ascii_char(#[trigger] s[i]) && !('A' <= s[i]
        <= 'Z') by {
        assert(is_slug_char(s[i]) || s[i] == '-');
    }
    lemma_lowercase_fixed(s);
    lemma_collapse_fixed(s);
    let t = strip_trailing_hyphen(s);
    if t.len() > 0 && t.last() == '-' {
        assert(s[s.len() - 2] == '-' && s[s.len() - 2 + 1] == '-');
    }
}

/// Whether `c` is a character that a slug keeps.
pub fn keeps(c: char) -> (r: bool)
    ensures
        r == is_slug_char(c),
{
    ('a' <= c && c <= 'z') || ('0' <= c && c <= '9')
}

/// The slug of a text that is already in lowercase.
pub fn slug_from_lowercase(lower: &Vec<char>) -> (slug: String)
    ensures
        slug@ == slug_of(lower@),
{
    let mut out: Vec<char> = Vec::new();
    let mut i: usize = 0;
    while i < lower.len()
        invariant
            i <= lower.len(),
            out@ == collapse(lower@.take(i as int)),
        decreases lower.len() - i,
    {
        proof {
            assert(lower@.take(i + 1).drop_last() == lower@.take(i as int));
        }
        let c = lower[i];
        if keeps(c) {
            out.push(c);
        } else if out.len() > 0 && out[out.len() - 1] != '-' {
            out.push('-');
        }
        i += 1;
    }
    assert(lower@.take(lower.len() as int) == lower@);
    let mut end: usize = out.len();
    if end > 0 && out[end - 1] == '-' {
        end -= 1;
    }
    assert(out@.subrange(0, end as int) == strip_trailing_hyphen(out@));
    if end > SLUG_MAX {
        end = SLUG_MAX;
    }
    assert(out@.subrange(0, end as int) == slug_of(lower@));
    string_of_range(&out, 0, end)
}

/// The file-name slug of a title: in lowercase, every run of characters
/// other than `a` to `z` and `0` to `9` turned into one hyphen, no hyphen in
/// front, a hyphen at the end taken off, then cut to `SLUG_MAX` characters.
/// The cut comes last, so a slug of `SLUG_MAX` characters can end in a
/// hyphen: it does where the cut falls right behind one.
pub fn slugify(title: &str) -> (slug: String)
    ensures
        slug@ == slugify_spec(title@),
        is_slug_shaped(slug@),
        slug@.len() <= SLUG_MAX,
        slug@.len() > 0 && slug@.last() == '-' ==> slug@.len() == SLUG_MAX,
{
    let lower = to_lowercase(title);
    proof {
        lemma_slug_shaped(title@);
    }
    slug_from_lowercase(&lower)
}

/// The most candidates that `generate_id` draws before it gives up.
pub const MAX_DRAWS: u32 = 1_000_000;

/// The character of the hexadecimal digit `d`, in lowercase.
pub open spec fn hex_digit(d: int) -> char {
    if d < 10 {
        ((48 + d) as u8) as char
    } else {
        ((87 + d) as u8) as char
    }
}

/// `n` as four hexadecimal digits, in lowercase, with leading zeros.
pub open spec fn hex4(n: u16) -> Seq<char> {
    seq![
        hex_digit(n as int / 4096),
        hex_digit((n as int / 256) % 16),
        hex_digit((n as int / 16) % 16),
        hex_digit(n as int % 16),
    ]
}

/// The characters of an id: the digits and `a` to `f`.
pub open spec fn is_id_char(c: char) -> bool {
    ('0' <= c <= '9') || ('a' <= c <= 'f')
}

/// An id is four hexadecimal digits in lowercase.
pub open spec fn is_id(s: Seq<char>) -> bool {
    s.len() == 4 && forall|i: int| 0 <= i < 4 ==> is_id_char(#[trigger] s[i])
}

/// Each of the sixteen digits has a character of its own, and that
/// character is one of an id.
proof fn lemma_hex_digit(x: int, y: int)
    requires
        0 <= x < 16,
        0 <= y < 16,
    ensures
        is_id_char(hex_digit(x)),
        hex_digit(x) == hex_digit(y) ==> x == y,
{
    assert(hex_digit(x) as u32 == if x < 10 {
        48 + x
    } else {
        87 + x
    });
    assert(hex_digit(y) as u32 == if y < 10 {
        48 + y
    } else {
        87 + y
    });
}

/// Every number gives an id, and two numbers give two ids.
pub proof fn lemma_hex4(a: u16, b: u16)
    ensures
        is_id(hex4(a)),
        hex4(a) == hex4(b) ==> a == b,
{
    let (a0, a1, a2, a3) = (a as int / 4096, (a as int / 256) % 16, (a as int / 16) % 16, a as int
        % 16);
    let (b0, b1, b2, b3) = (b as int / 4096, (b as int / 256) % 16, (b as int / 16) % 16, b as int
        % 16);
    lemma_hex_digit(a0, b0);
    lemma_hex_digit(a1, b1);
    lemma_hex_digit(a2, b2);
    lemma_hex_digit(a3, b3);
    let s = hex4(a);
    let t = hex4(b);
    assert(s[0] == hex_digit(a0) && s[1] == hex_digit(a1) && s[2] == hex_digit(a2) && s[3]
        == hex_digit(a3));
    assert forall|i: int| 0 <= i < 4 implies is_id_char(#[trigger] s[i]) by {}
    if s == t {
        assert(t[0] == hex_digit(b0) && t[1] == hex_digit(b1) && t[2] == hex_digit(b2) && t[3]
            == hex_digit(b3));
        assert(a0 == b0 && a1 == b1 && a2 == b2 && a3 == b3);
        assert(a as int == a0 * 4096 + a1 * 256 + a2 * 16 + a3);
        assert(b as int == b0 * 4096 + b1 * 256 + b2 * 16 + b3);
    }
}

fn hex_char(d: u16) -> (c: char)
    requires
        d < 16,
    ensures
        c == hex_digit(d as int),
{
    if d < 10 {
        (48u8 + d as u8) as char
    } else {
        (87u8 + d as u8) as char
    }
}

/// The id that stands for the number `n`.
pub fn id_of(n: u16) -> (id: String)
    ensures
        id@ == hex4(n),
        is_id(id@),
{
    let mut id = String::new();
    push_char(&mut id, hex_char(n / 4096));
    push_char(&mut id, hex_char((n / 256) % 16));
    push_char(&mut id, hex_char((n / 16) % 16));
    push_char(&mut id, hex_char(n % 16));
    proof {
        assert(id@ =~= hex4(n));
        lemma_hex4(n, n);
    }
    id
}

/// A random number, each value as likely as any other. Calls `rand::rng`
/// and `RngExt::random`, which promise nothing more of the value; `rand::rng`
/// panics where the operating system cannot seed the generator.
#[verifier::external_body]
fn random_u16() -> u16 {
    rand::RngExt::random(&mut rand::rng())
}

/// `f`, asked about a text that reads `s`, may answer `b`.
pub open spec fn answers<F: FnMut(&str) -> bool>(f: F, s: Seq<char>, b: bool) -> bool {
    exists|t: &str| t@ == s && call_ensures(f, (t,), b)
}

/// The id of `draw` if `is_taken` lets it pass, else nothing.
pub fn candidate<F: FnMut(&str) -> bool>(draw: u16, is_taken: &mut F) -> (r: Option<String>)
    requires
        forall|t: &str| call_requires(*old(is_taken), (t,)),
    ensures
        *final(is_taken) == *old(is_taken),
        match r {
            Some(id) => id@ == hex4(draw) && answers(*old(is_taken), hex4(draw), false),
            None => answers(*old(is_taken), hex4(draw), true),
        },
{
    let id = id_of(draw);
    if is_taken(id.as_str()) {
        None
    } else {
        Some(id)
    }
}

/// A fresh id: candidates are drawn at random, one after the other, and the
/// first that `is_taken` lets pass is returned. After `MAX_DRAWS` candidates
/// that were all taken the search ends with nothing.
///
/// The second component is the trace of the numbers drawn. All but the last
/// were taken, so a predicate that turns down the first `n` candidates and
/// lets the next one pass sees exactly `n + 1` draws.
pub fn generate_id<F: FnMut(&str) -> bool>(is_taken: F) -> (r: (Option<String>, Ghost<Seq<u16>>))
    requires
        forall|t: &str| call_requires(is_taken, (t,)),
    ensures
        r.1@.len() <= MAX_DRAWS,
        match r.0 {
            Some(id) => {
                &&& r.1@.len() >= 1
                &&& id@ == hex4(r.1@.last())
                &&& is_id(id@)
                &&& answers(is_taken, id@, false)
                &&& forall|j: int|
                    0 <= j < r.1@.len() - 1 ==> answers(is_taken, hex4(#[trigger] r.1@[j]), true)
            },
            None => {
                &&& r.1@.len() == MAX_DRAWS
                &&& forall|j: int|
                    0 <= j < r.1@.len() ==> answers(is_taken, hex4(#[trigger] r.1@[j]), true)
            },
        },
{
    let mut ask = is_taken;
    let ghost mut draws: Seq<u16> = Seq::empty();
    let mut count: u32 = 0;
    while count < MAX_DRAWS
        invariant
            count <= MAX_DRAWS,
            ask == is_taken,
            forall|t: &str| call_requires(is_taken, (t,)),
            draws.len() == count,
            forall|j: int| 0 <= j < draws.len() ==> answers(is_taken, hex4(#[trigger] draws[j]), true),
        decreases MAX_DRAWS - count,
    {
        let n = random_u16();
        let picked = candidate(n, &mut ask);
        let ghost before = draws;
        proof {
            draws = draws.push(n);
        }
        match picked {
            Some(id) => {
                proof {
                    lemma_hex4(n, n);
                    assert forall|j: int| 0 <= j < draws.len() - 1 implies answers(
                        is_taken,
                        hex4(#[trigger] draws[j]),
                        true,
                    ) by {
                        assert(draws[j] == before[j]);
                    }
                }
                return (Some(id), Ghost(draws));
            },
            None => {
                proof {
                    assert forall|j: int| 0 <= j < draws.len() implies answers(
                        is_taken,
                        hex4(#[trigger] draws[j]),
                        true,
                    ) by {
                        if j < before.len() {
                            assert(draws[j] == before[j]);
                        }
                    }
                }
            },
        }
        count += 1;
    }
    (None, Ghost(draws))
}

} // verus!
