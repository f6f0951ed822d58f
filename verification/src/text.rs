//! Reading command output as text: white space as Rust's `char::is_whitespace`
//! knows it, trimming, line splitting as `str::lines` does it, and the
//! searches that the `pactl` parsers need, all on character ranges.
use vstd::prelude::*;

verus! {

/// A class of characters that a scan runs over.
#[derive(Clone, Copy, PartialEq, Eq, Structural)]
pub enum CharClass {
    /// Unicode white space (`char::is_whitespace`).
    WhiteSpace,
    /// Anything but white space.
    NonWhiteSpace,
    /// The double quote `"`.
    Quote,
    /// Anything but the line feed `\n`.
    NotNewline,
}

/// Unicode `White_Space`, the characters that `char::is_whitespace` accepts.
pub open spec fn is_white_space(c: char) -> bool {
    let u = c as u32;
    ||| 0x09 <= u <= 0x0D
    ||| u == 0x20
    ||| u == 0x85
    ||| u == 0xA0
    ||| u == 0x1680
    ||| 0x2000 <= u <= 0x200A
    ||| u == 0x2028
    ||| u == 0x2029
    ||| u == 0x202F
    ||| u == 0x205F
    ||| u == 0x3000
}

/// What `trailing` counts: a run of `class` characters at the end of `s`,
/// preceded by the start of `s` or by a character outside `class`.
pub proof fn lemma_trailing(s: Seq<char>, class: CharClass)
    ensures
        trailing(s, class) <= s.len(),
        forall|i: int|
            s.len() - trailing(s, class) <= i < s.len() ==> in_class(#[trigger] s[i], class),
        trailing(s, class) < s.len() ==> !in_class(
            s[s.len() - trailing(s, class) - 1],
            class,
        ),
    decreases s.len(),
{
    if s.len() > 0 && in_class(s.last(), class) {
        lemma_trailing(s.drop_last(), class);
        assert forall|i: int| s.len() - trailing(s, class) <= i < s.len() implies in_class(
            #[trigger] s[i],
            class,
        ) by {
            if i < s.len() - 1 {
                assert(s[i] == s.drop_last()[i]);
            }
        }
        if trailing(s, class) < s.len() {
            assert(s[s.len() - trailing(s, class) - 1] == s.drop_last()[s.drop_last().len()
                - trailing(s.drop_last(), class) - 1]);
        }
    }
}

/// `t` is `s` with its white space at both ends removed: `t` is a
/// contiguous part of `s`, everything of `s` before and after it is white
/// space, and `t` neither starts nor ends with white space.
pub open spec fn is_trim_of(t: Seq<char>, s: Seq<char>) -> bool {
    &&& exists|a: int|
        #![trigger s.subrange(a, a + t.len())]
        {
            &&& 0 <= a
            &&& a + t.len() <= s.len()
            &&& s.subrange(a, a + t.len()) == t
            &&& forall|i: int| 0 <= i < a ==> is_white_space(#[trigger] s[i])
            &&& forall|i: int| a + t.len() <= i < s.len() ==> is_white_space(#[trigger] s[i])
        }
    &&& t.len() > 0 ==> !is_white_space(t[0]) && !is_white_space(t.last())
}

/// `trim` removes exactly the white space at both ends.
pub proof fn lemma_trim_is_trim_of(s: Seq<char>)
    ensures
        is_trim_of(trim(s), s),
{
    let l = leading(s, CharClass::WhiteSpace) as int;
    lemma_leading(s, CharClass::WhiteSpace);
    let t1 = s.skip(l);
    lemma_trailing(t1, CharClass::WhiteSpace);
    let tr = trailing(t1, CharClass::WhiteSpace) as int;
    let t = trim(s);
    assert(t == t1.take(t1.len() - tr));
    assert(s.subrange(l, l + t.len()) =~= t);
    assert forall|i: int| l + t.len() <= i < s.len() implies is_white_space(#[trigger] s[i]) by {
        assert(s[i] == t1[i - l]);
        assert(in_class(t1[i - l], CharClass::WhiteSpace));
    }
    assert forall|i: int| 0 <= i < l implies is_white_space(#[trigger] s[i]) by {
        assert(in_class(s[i], CharClass::WhiteSpace));
    }
    if t.len() > 0 {
        assert(t[0] == s[l]);
        assert(!in_class(s[l], CharClass::WhiteSpace));
        assert(t.last() == t1[t1.len() - tr - 1]);
    }
    assert(s.subrange(l, l + t.len()) == t);
}

/// A non-empty trim of `s` is the only one.
pub proof fn lemma_trim_unique(s: Seq<char>, t1: Seq<char>, t2: Seq<char>)
    requires
        is_trim_of(t1, s),
        is_trim_of(t2, s),
        t1.len() > 0,
    ensures
        t1 == t2,
{
    let a1 = choose|a: int|
        #![trigger s.subrange(a, a + t1.len())]
        {
            &&& 0 <= a
            &&& a + t1.len() <= s.len()
            &&& s.subrange(a, a + t1.len()) == t1
            &&& forall|i: int| 0 <= i < a ==> is_white_space(#[trigger] s[i])
            &&& forall|i: int| a + t1.len() <= i < s.len() ==> is_white_space(#[trigger] s[i])
        };
    let a2 = choose|a: int|
        #![trigger s.subrange(a, a + t2.len())]
        {
            &&& 0 <= a
            &&& a + t2.len() <= s.len()
            &&& s.subrange(a, a + t2.len()) == t2
            &&& forall|i: int| 0 <= i < a ==> is_white_space(#[trigger] s[i])
            &&& forall|i: int| a + t2.len() <= i < s.len() ==> is_white_space(#[trigger] s[i])
        };
    let e1 = a1 + t1.len();
    let e2 = a2 + t2.len();
    assert(s[a1] == t1[0]);
    assert(s[e1 - 1] == t1.last());
    if t2.len() == 0 {
        assert(is_white_space(s[a1]));
    }
    assert(t2.len() > 0);
    assert(s[a2] == t2[0]);
    assert(s[e2 - 1] == t2.last());
    if a1 < a2 {
        assert(is_white_space(s[a1]));
    }
    if a2 < a1 {
        assert(is_white_space(s[a2]));
    }
    if e1 < e2 {
        assert(is_white_space(s[e2 - 1]));
    }
    if e2 < e1 {
        assert(is_white_space(s[e1 - 1]));
    }
    assert(a1 == a2 && e1 == e2);
}

/// Whether `c` belongs to `class`.
pub open spec fn in_class(c: char, class: CharClass) -> bool {
    match class {
        CharClass::WhiteSpace => is_white_space(c),
        CharClass::NonWhiteSpace => !is_white_space(c),
        CharClass::Quote => c == '"',
        CharClass::NotNewline => c != '\n',
    }
}

/// Number of characters at the start of `s` that belong to `class`.
pub open spec fn leading(s: Seq<char>, class: CharClass) -> nat
    decreases s.len(),
{
    if s.len() > 0 && in_class(s[0], class) {
        1 + leading(s.drop_first(), class)
    } else {
        0
    }
}

/// Number of characters at the end of `s` that belong to `class`.
pub open spec fn trailing(s: Seq<char>, class: CharClass) -> nat
    decreases s.len(),
{
    if s.len() > 0 && in_class(s.last(), class) {
        1 + trailing(s.drop_last(), class)
    } else {
        0
    }
}

/// `s` without the characters of `class` at its start and at its end.
pub open spec fn trim_by(s: Seq<char>, class: CharClass) -> Seq<char> {
    let t = s.skip(leading(s, class) as int);
    t.take(t.len() - trailing(t, class))
}

/// `s` without white space at either end (`str::trim`).
pub open spec fn trim(s: Seq<char>) -> Seq<char> {
    trim_by(s, CharClass::WhiteSpace)
}

/// `s` starts with `prefix`.
pub open spec fn starts_with(s: Seq<char>, prefix: Seq<char>) -> bool {
    prefix.len() <= s.len() && s.take(prefix.len() as int) == prefix
}

/// `s` ends with `suffix`.
pub open spec fn ends_with(s: Seq<char>, suffix: Seq<char>) -> bool {
    suffix.len() <= s.len() && s.skip(s.len() - suffix.len()) == suffix
}

/// `line` without one carriage return at its end.
pub open spec fn strip_cr(line: Seq<char>) -> Seq<char> {
    if line.len() > 0 && line.last() == '\r' {
        line.drop_last()
    } else {
        line
    }
}

/// The lines of `s` as `str::lines` yields them: split at each `\n`, a
/// `\r` right before the `\n` dropped, no empty line after a final `\n`.
pub open spec fn lines(s: Seq<char>) -> Seq<Seq<char>>
    decreases s.len(),
{
    if s.len() == 0 {
        Seq::empty()
    } else {
        let j = leading(s, CharClass::NotNewline);
        if j >= s.len() {
            seq![s]
        } else {
            seq![strip_cr(s.take(j as int))] + lines(s.skip(j as int + 1))
        }
    }
}

/// What `leading` counts: a run of `class` characters ended by the end of
/// `s` or by a character outside `class`.
pub proof fn lemma_leading(s: Seq<char>, class: CharClass)
    ensures
        leading(s, class) <= s.len(),
        forall|i: int| 0 <= i < leading(s, class) ==> in_class(#[trigger] s[i], class),
        leading(s, class) < s.len() ==> !in_class(s[leading(s, class) as int], class),
    decreases s.len(),
{
    if s.len() > 0 && in_class(s[0], class) {
        lemma_leading(s.drop_first(), class);
        assert forall|i: int| 0 <= i < leading(s, class) implies in_class(#[trigger] s[i], class) by {
            if i > 0 {
                assert(s[i] == s.drop_first()[i - 1]);
            }
        }
    }
}

/// Whether `c` belongs to `class`.
pub fn class_contains(c: char, class: CharClass) -> (r: bool)
    ensures
        r == in_class(c, class),
{
    match class {
        CharClass::WhiteSpace => is_white_space_char(c),
        CharClass::NonWhiteSpace => !is_white_space_char(c),
        CharClass::Quote => c == '"',
        CharClass::NotNewline => c != '\n',
    }
}

/// Whether `c` is Unicode white space.
pub fn is_white_space_char(c: char) -> (r: bool)
    ensures
        r == is_white_space(c),
{
    let u = c as u32;
    (0x09 <= u && u <= 0x0D) || u == 0x20 || u == 0x85 || u == 0xA0 || u == 0x1680 || (0x2000 <= u
        && u <= 0x200A) || u == 0x2028 || u == 0x2029 || u == 0x202F || u == 0x205F || u == 0x3000
}

/// The characters of `s`, in order.
pub fn chars_of(s: &str) -> (v: Vec<char>)
    ensures
        v@ == s@,
{
    let mut v: Vec<char> = Vec::new();
    for c in it: s.chars()
        invariant
            v@ == it.seq().take(it.index()),
    {
        v.push(c);
    }
    v
}

/// The end of the run of `class` characters that starts at `lo` in
/// `chars[lo..hi]`.
pub fn skip_class(chars: &Vec<char>, lo: usize, hi: usize, class: CharClass) -> (k: usize)
    requires
        lo <= hi <= chars@.len(),
    ensures
        lo <= k <= hi,
        k - lo == leading(chars@.subrange(lo as int, hi as int), class),
{
    let mut i = lo;
    while i < hi && class_contains(chars[i], class)
        invariant
            lo <= i <= hi,
            hi <= chars@.len(),
            leading(chars@.subrange(lo as int, hi as int), class) == (i - lo) + leading(
                chars@.subrange(i as int, hi as int),
                class,
            ),
        decreases hi - i,
    {
        assert(chars@.subrange(i as int, hi as int).drop_first() =~= chars@.subrange(
            i + 1,
            hi as int,
        ));
        i = i + 1;
    }
    i
}

/// The start of the run of `class` characters that ends at `hi` in
/// `chars[lo..hi]`.
pub fn skip_class_back(chars: &Vec<char>, lo: usize, hi: usize, class: CharClass) -> (k: usize)
    requires
        lo <= hi <= chars@.len(),
    ensures
        lo <= k <= hi,
        hi - k == trailing(chars@.subrange(lo as int, hi as int), class),
{
    let mut j = hi;
    while j > lo && class_contains(chars[j - 1], class)
        invariant
            lo <= j <= hi,
            hi <= chars@.len(),
            trailing(chars@.subrange(lo as int, hi as int), class) == (hi - j) + trailing(
                chars@.subrange(lo as int, j as int),
                class,
            ),
        decreases j - lo,
    {
        assert(chars@.subrange(lo as int, j as int).drop_last() =~= chars@.subrange(
            lo as int,
            j - 1,
        ));
        j = j - 1;
    }
    j
}

/// The range of `chars[lo..hi]` left once the `class` characters at both
/// ends are removed.
pub fn trim_range(chars: &Vec<char>, lo: usize, hi: usize, class: CharClass) -> (r: (usize, usize))
    requires
        lo <= hi <= chars@.len(),
    ensures
        lo <= r.0 <= r.1 <= hi,
        chars@.subrange(r.0 as int, r.1 as int) == trim_by(
            chars@.subrange(lo as int, hi as int),
            class,
        ),
{
    let a = skip_class(chars, lo, hi, class);
    let b = skip_class_back(chars, a, hi, class);
    let ghost s = chars@.subrange(lo as int, hi as int);
    assert(s.skip(a - lo) =~= chars@.subrange(a as int, hi as int));
    assert(chars@.subrange(a as int, hi as int).take(b - a) =~= chars@.subrange(
        a as int,
        b as int,
    ));
    (a, b)
}

/// Whether `chars[lo..hi]` starts with `prefix`.
pub fn range_starts_with(chars: &Vec<char>, lo: usize, hi: usize, prefix: &str) -> (r: bool)
    requires
        lo <= hi <= chars@.len(),
    ensures
        r == starts_with(chars@.subrange(lo as int, hi as int), prefix@),
{
    let n = prefix.unicode_len();
    if n > hi - lo {
        return false;
    }
    let ghost s = chars@.subrange(lo as int, hi as int);
    let mut j: usize = 0;
    while j < n
        invariant
            n == prefix@.len(),
            lo + n <= hi,
            hi <= chars@.len(),
            j <= n,
            s == chars@.subrange(lo as int, hi as int),
            forall|i: int| 0 <= i < j ==> s[i] == prefix@[i],
        decreases n - j,
    {
        if chars[lo + j] != prefix.get_char(j) {
            assert(s.take(n as int)[j as int] != prefix@[j as int]);
            return false;
        }
        j = j + 1;
    }
    assert(s.take(n as int) =~= prefix@);
    true
}

/// Whether `chars[lo..hi]` ends with `suffix`.
pub fn range_ends_with(chars: &Vec<char>, lo: usize, hi: usize, suffix: &str) -> (r: bool)
    requires
        lo <= hi <= chars@.len(),
    ensures
        r == ends_with(chars@.subrange(lo as int, hi as int), suffix@),
{
    let n = suffix.unicode_len();
    if n > hi - lo {
        return false;
    }
    let start = hi - n;
    let ghost s = chars@.subrange(lo as int, hi as int);
    let ghost tail = s.skip(s.len() - n);
    assert(tail =~= chars@.subrange(start as int, hi as int));
    let mut j: usize = 0;
    while j < n
        invariant
            n == suffix@.len(),
            start + n == hi,
            hi <= chars@.len(),
            j <= n,
            tail == chars@.subrange(start as int, hi as int),
            s == chars@.subrange(lo as int, hi as int),
            n <= s.len(),
            tail == s.skip(s.len() - n),
            forall|i: int| 0 <= i < j ==> tail[i] == suffix@[i],
        decreases n - j,
    {
        if chars[start + j] != suffix.get_char(j) {
            assert(tail[j as int] != suffix@[j as int]);
            return false;
        }
        j = j + 1;
    }
    assert(tail =~= suffix@);
    true
}

/// Whether `chars[lo..hi]` is exactly `other`.
pub fn range_equals(chars: &Vec<char>, lo: usize, hi: usize, other: &Vec<char>) -> (r: bool)
    requires
        lo <= hi <= chars@.len(),
    ensures
        r == (chars@.subrange(lo as int, hi as int) == other@),
{
    if hi - lo != other.len() {
        return false;
    }
    let ghost s = chars@.subrange(lo as int, hi as int);
    let n = other.len();
    let mut j: usize = 0;
    while j < n
        invariant
            n == other@.len(),
            lo + n == hi,
            hi <= chars@.len(),
            j <= n,
            s == chars@.subrange(lo as int, hi as int),
            forall|i: int| 0 <= i < j ==> s[i] == other@[i],
        decreases n - j,
    {
        if chars[lo + j] != other[j] {
            assert(s[j as int] != other@[j as int]);
            return false;
        }
        j = j + 1;
    }
    assert(s =~= other@);
    true
}

/// Splits the first line off `chars[pos..]`: returns the range of that line
/// (without its line ending) and where the rest starts.
pub fn next_line(chars: &Vec<char>, pos: usize) -> (r: (usize, usize, usize))
    requires
        pos < chars@.len(),
    ensures
        pos <= r.0 <= r.1 <= chars@.len(),
        pos < r.2 <= chars@.len(),
        lines(chars@.subrange(pos as int, chars@.len() as int)) == seq![
            chars@.subrange(r.0 as int, r.1 as int),
        ] + lines(chars@.subrange(r.2 as int, chars@.len() as int)),
{
    let n = chars.len();
    let j = skip_class(chars, pos, n, CharClass::NotNewline);
    let ghost s = chars@.subrange(pos as int, n as int);
    proof {
        lemma_leading(s, CharClass::NotNewline);
    }
    if j == n {
        assert(lines(chars@.subrange(n as int, n as int)) =~= Seq::<Seq<char>>::empty());
        assert(lines(s) =~= seq![s] + Seq::<Seq<char>>::empty());
        return (pos, n, n);
    }
    assert(s.skip(j - pos + 1) =~= chars@.subrange(j + 1, n as int));
    let line_end = if j > pos && chars[j - 1] == '\r' {
        j - 1
    } else {
        j
    };
    assert(strip_cr(s.take(j - pos)) =~= chars@.subrange(pos as int, line_end as int));
    (pos, line_end, j + 1)
}

} // verus!
