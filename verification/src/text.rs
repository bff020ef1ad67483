//! Character-level helpers on strings, stated over `Seq<char>`.
use vstd::prelude::*;
use vstd::std_specs::iter::IteratorSpec;

verus! {

broadcast use vstd::string::group_string_axioms;

/// `String::push`: appends one character to the end of the string.
#[verifier::external_body]
pub(crate) fn push_char(s: &mut String, c: char)
    ensures
        final(s)@ == old(s)@.push(c),
{
    s.push(c)
}

/// `String::pop`: takes the last character off the string and returns it,
/// or returns nothing where the string is empty.
#[verifier::external_body]
pub(crate) fn pop_char(s: &mut String) -> (c: Option<char>)
    ensures
        old(s)@.len() == 0 ==> c is None && final(s)@ == old(s)@,
        old(s)@.len() > 0 ==> c == Some(old(s)@.last()) && final(s)@ == old(s)@.drop_last(),
{
    s.pop()
}

/// The characters of `s`, in order.
pub fn chars_of(s: &str) -> (v: Vec<char>)
    ensures
        v@ == s@,
{
    let mut v: Vec<char> = Vec::new();
    for c in it: s.chars()
        invariant
            it.seq() == s@,
            v@ == it.seq().take(it.index() as int),
    {
        v.push(c);
    }
    v
}

/// The string made of `v[from..to]`.
pub fn string_of_range(v: &Vec<char>, from: usize, to: usize) -> (s: String)
    requires
        from <= to <= v.len(),
    ensures
        s@ == v@.subrange(from as int, to as int),
{
    let mut s = String::new();
    let mut i: usize = from;
    while i < to
        invariant
            from <= i <= to <= v.len(),
            s@ == v@.subrange(from as int, i as int),
        decreases to - i,
    {
        push_char(&mut s, v[i]);
        assert(v@.subrange(from as int, i + 1) == v@.subrange(from as int, i as int).push(v@[i as int]));
        i += 1;
    }
    s
}

/// Whether `s` begins with `prefix`, character by character.
pub fn starts_with(s: &str, prefix: &str) -> (r: bool)
    ensures
        r == prefix@.is_prefix_of(s@),
{
    let mut rest = s.chars();
    let mut matched: bool = true;
    for p in it: prefix.chars()
        invariant
            it.seq() == prefix@,
            rest.obeys_prophetic_iter_laws(),
            matched ==> it.index() <= s@.len() && rest.remaining() == s@.skip(it.index() as int)
                && s@.take(it.index() as int) == prefix@.take(it.index() as int),
            !matched ==> !prefix@.is_prefix_of(s@),
    {
        if matched {
            match rest.next() {
                Some(c) => {
                    if c != p {
                        matched = false;
                        assert(s@[it.index() as int] != prefix@[it.index() as int]);
                    } else {
                        assert(s@.take(it.index() + 1) == s@.take(it.index() as int).push(c));
                        assert(prefix@.take(it.index() + 1) == prefix@.take(
                            it.index() as int,
                        ).push(p));
                        assert(s@.skip(it.index() as int).drop_first() == s@.skip(it.index() + 1));
                    }
                },
                None => {
                    matched = false;
                },
            }
        }
    }
    proof {
        if matched {
            assert(prefix@.take(prefix@.len() as int) == prefix@);
        }
    }
    matched
}

/// Whether `a` and `b` hold the same characters.
pub fn same_text(a: &str, b: &str) -> (r: bool)
    ensures
        r == (a@ == b@),
{
    let r = starts_with(a, b) && starts_with(b, a);
    proof {
        if r {
            assert(a@ =~= b@);
        }
    }
    r
}

/// The characters that count as white space: those with the Unicode property
/// `White_Space`.
pub open spec fn is_whitespace(c: char) -> bool {
    let n = c as u32;
    ||| 0x09 <= n <= 0x0d
    ||| n == 0x20
    ||| n == 0x85
    ||| n == 0xa0
    ||| n == 0x1680
    ||| 0x2000 <= n <= 0x200a
    ||| n == 0x2028
    ||| n == 0x2029
    ||| n == 0x202f
    ||| n == 0x205f
    ||| n == 0x3000
}

/// Whether `c` is white space.
pub fn char_is_whitespace(c: char) -> (r: bool)
    ensures
        r == is_whitespace(c),
{
    let n: u32 = c as u32;
    (0x09 <= n && n <= 0x0d) || n == 0x20 || n == 0x85 || n == 0xa0 || n == 0x1680 || (0x2000 <= n
        && n <= 0x200a) || n == 0x2028 || n == 0x2029 || n == 0x202f || n == 0x205f || n == 0x3000
}

/// A text is blank when it holds nothing but white space.
pub open spec fn is_blank(s: Seq<char>) -> bool {
    forall|i: int| 0 <= i < s.len() ==> is_whitespace(#[trigger] s[i])
}

/// The number of leading white-space characters of `s`.
pub open spec fn leading_whitespace(s: Seq<char>) -> nat
    decreases s.len(),
{
    if s.len() > 0 && is_whitespace(s[0]) {
        1 + leading_whitespace(s.drop_first())
    } else {
        0
    }
}

/// The number of trailing white-space characters of `s`.
pub open spec fn trailing_whitespace(s: Seq<char>) -> nat
    decreases s.len(),
{
    if s.len() > 0 && is_whitespace(s.last()) {
        1 + trailing_whitespace(s.drop_last())
    } else {
        0
    }
}

/// `s` without its leading and trailing white space.
pub open spec fn trimmed(s: Seq<char>) -> Seq<char> {
    if is_blank(s) {
        Seq::empty()
    } else {
        s.subrange(leading_whitespace(s) as int, s.len() - trailing_whitespace(s))
    }
}

/// Whether `v` holds nothing but white space from index `from` on.
pub fn blank_from(v: &Vec<char>, from: usize) -> (r: bool)
    requires
        from <= v.len(),
    ensures
        r == is_blank(v@.skip(from as int)),
{
    let ghost rest = v@.skip(from as int);
    let mut i: usize = from;
    while i < v.len()
        invariant
            from <= i <= v.len(),
            rest == v@.skip(from as int),
            forall|j: int| 0 <= j < i - from ==> is_whitespace(#[trigger] rest[j]),
        decreases v.len() - i,
    {
        if !char_is_whitespace(v[i]) {
            assert(rest[i - from] == v@[i as int]);
            return false;
        }
        i += 1;
    }
    true
}

proof fn lemma_leading_whitespace(s: Seq<char>, i: int)
    requires
        0 <= i <= s.len(),
        forall|j: int| 0 <= j < i ==> is_whitespace(#[trigger] s[j]),
        i == s.len() || !is_whitespace(s[i]),
    ensures
        leading_whitespace(s) == i,
    decreases i,
{
    if i > 0 {
        let rest = s.drop_first();
        assert forall|j: int| 0 <= j < i - 1 implies is_whitespace(#[trigger] rest[j]) by {
            assert(rest[j] == s[j + 1]);
        }
        lemma_leading_whitespace(rest, i - 1);
    }
}

proof fn lemma_trailing_whitespace(s: Seq<char>, n: int)
    requires
        0 <= n <= s.len(),
        forall|j: int| s.len() - n <= j < s.len() ==> is_whitespace(#[trigger] s[j]),
        n == s.len() || !is_whitespace(s[s.len() - n - 1]),
    ensures
        trailing_whitespace(s) == n,
    decreases n,
{
    if n > 0 {
        let rest = s.drop_last();
        assert forall|j: int| rest.len() - (n - 1) <= j < rest.len() implies is_whitespace(
            #[trigger] rest[j],
        ) by {
            assert(rest[j] == s[j]);
        }
        lemma_trailing_whitespace(rest, n - 1);
    }
}

/// `s` without its leading and trailing white space.
pub fn trim(s: &str) -> (r: String)
    ensures
        r@ == trimmed(s@),
{
    let v = chars_of(s);
    let mut from: usize = 0;
    while from < v.len() && char_is_whitespace(v[from])
        invariant
            from <= v.len(),
            forall|j: int| 0 <= j < from ==> is_whitespace(#[trigger] v@[j]),
        decreases v.len() - from,
    {
        from += 1;
    }
    if from == v.len() {
        return String::new();
    }
    let mut to: usize = v.len();
    while to > from && char_is_whitespace(v[to - 1])
        invariant
            from <= to <= v.len(),
            from < v.len(),
            !is_whitespace(v@[from as int]),
            forall|j: int| to <= j < v.len() ==> is_whitespace(#[trigger] v@[j]),
        decreases to,
    {
        to -= 1;
    }
    proof {
        lemma_leading_whitespace(v@, from as int);
        lemma_trailing_whitespace(v@, v.len() - to);
    }
    string_of_range(&v, from, to)
}

/// What `char::to_lowercase` yields for `c`: the lowercase mapping of the
/// Unicode character database, one character or several.
pub uninterp spec fn unicode_lowercase(c: char) -> Seq<char>;

/// `char::to_lowercase`, its characters collected in order.
#[verifier::external_body]
pub(crate) fn unicode_to_lowercase(c: char) -> (r: Vec<char>)
    ensures
        r@ == unicode_lowercase(c),
{
    c.to_lowercase().collect()
}

/// The characters of the ASCII range.
pub open spec fn is_ascii_char(c: char) -> bool {
    c as u32 <= 0x7f
}

/// The lowercase form of one character. Within ASCII only `A` to `Z` change,
/// each to the letter 32 places on; beyond ASCII the Unicode mapping decides.
pub open spec fn lowercase_char(c: char) -> Seq<char> {
    if 'A' <= c <= 'Z' {
        seq![((c as u8) + 32) as char]
    } else if is_ascii_char(c) {
        seq![c]
    } else {
        unicode_lowercase(c)
    }
}

/// The lowercase form of a text: that of each of its characters, in order.
pub open spec fn lowercase(s: Seq<char>) -> Seq<char>
    decreases s.len(),
{
    if s.len() == 0 {
        Seq::empty()
    } else {
        lowercase(s.drop_last()) + lowercase_char(s.last())
    }
}

/// Appends the lowercase form of `c` to `out`.
pub fn push_lowercase(out: &mut Vec<char>, c: char)
    ensures
        final(out)@ == old(out)@ + lowercase_char(c),
{
    if 'A' <= c && c <= 'Z' {
        let lower: char = ((c as u8) + 32) as char;
        out.push(lower);
        assert(out@ == old(out)@ + seq![lower]);
    } else if c as u32 <= 0x7f {
        out.push(c);
        assert(out@ == old(out)@ + seq![c]);
    } else {
        let mut mapped = unicode_to_lowercase(c);
        out.append(&mut mapped);
    }
}

/// The lowercase form of `s`.
pub fn to_lowercase(s: &str) -> (r: Vec<char>)
    ensures
        r@ == lowercase(s@),
{
    let mut out: Vec<char> = Vec::new();
    for c in it: s.chars()
        invariant
            it.seq() == s@,
            out@ == lowercase(s@.take(it.index() as int)),
    {
        proof {
            let upto = s@.take(it.index() + 1);
            assert(upto.drop_last() == s@.take(it.index() as int));
            assert(upto.last() == c);
        }
        push_lowercase(&mut out, c);
    }
    assert(s@.take(s@.len() as int) == s@);
    out
}

/// A text of ASCII characters without capital letters is its own lowercase
/// form.
pub proof fn lemma_lowercase_fixed(s: Seq<char>)
    requires
        forall|i: int| 0 <= i < s.len() ==> is_ascii_char(#[trigger] s[i]) && !('A' <= s[i] <= 'Z'),
    ensures
        lowercase(s) == s,
    decreases s.len(),
{
    if s.len() > 0 {
        lemma_lowercase_fixed(s.drop_last());
        assert(s.drop_last() + seq![s.last()] == s);
    }
}

/// The texts of `parts`.
pub open spec fn texts(parts: Seq<String>) -> Seq<Seq<char>> {
    Seq::new(parts.len(), |i: int| parts[i]@)
}

/// The texts of `parts` in a row, with `sep` between each two.
pub open spec fn joined(parts: Seq<Seq<char>>, sep: Seq<char>) -> Seq<char>
    decreases parts.len(),
{
    if parts.len() == 0 {
        Seq::empty()
    } else if parts.len() == 1 {
        parts[0]
    } else {
        joined(parts.drop_last(), sep) + sep + parts.last()
    }
}

/// The strings of `parts` in a row, with `sep` between each two.
pub fn join(parts: &Vec<String>, sep: &str) -> (r: String)
    ensures
        r@ == joined(texts(parts@), sep@),
{
    let mut out = String::new();
    let mut i: usize = 0;
    while i < parts.len()
        invariant
            i <= parts.len(),
            out@ == joined(texts(parts@).take(i as int), sep@),
        decreases parts.len() - i,
    {
        proof {
            let upto = texts(parts@).take(i + 1);
            assert(upto.drop_last() == texts(parts@).take(i as int));
            assert(upto.last() == parts@[i as int]@);
            if i == 0 {
                assert(upto[0] == parts@[0]@);
            }
        }
        if i > 0 {
            out.append(sep);
        }
        out.append(parts[i].as_str());
        i += 1;
    }
    assert(texts(parts@).take(parts.len() as int) == texts(parts@));
    out
}

} // verus!
