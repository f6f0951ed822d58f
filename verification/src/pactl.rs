//! Reading what `pactl` prints about PipeWire/PulseAudio sources.
use vstd::prelude::*;

use crate::text::{
    chars_of, leading, lines, next_line, range_equals, range_starts_with, skip_class,
    starts_with, trim, trim_by, trim_range, CharClass,
};

verus! {

/// The second white-space separated field of `line` (what
/// `line.split_whitespace().nth(1)` gives), if it has one.
pub open spec fn second_field(line: Seq<char>) -> Option<Seq<char>> {
    let t1 = line.skip(leading(line, CharClass::WhiteSpace) as int);
    let r1 = t1.skip(leading(t1, CharClass::NonWhiteSpace) as int);
    let t2 = r1.skip(leading(r1, CharClass::WhiteSpace) as int);
    if t2.len() == 0 {
        None
    } else {
        Some(t2.take(leading(t2, CharClass::NonWhiteSpace) as int))
    }
}

/// The source names in the lines of `pactl list short sources`: the second
/// field of each line that has one, in order.
pub open spec fn source_names(ls: Seq<Seq<char>>) -> Seq<Seq<char>>
    decreases ls.len(),
{
    if ls.len() == 0 {
        Seq::empty()
    } else {
        (match second_field(ls[0]) {
            Some(f) => seq![f],
            None => Seq::empty(),
        }) + source_names(ls.drop_first())
    }
}

/// Scans the lines of `pactl list sources` for the `object.serial` of the
/// source named `name`. `in_target` tells whether the lines seen last
/// belong to that source's block, which a `Name: ` line opens.
pub open spec fn serial_scan(ls: Seq<Seq<char>>, name: Seq<char>, in_target: bool) -> Option<
    Seq<char>,
>
    decreases ls.len(),
{
    if ls.len() == 0 {
        None
    } else {
        let t = trim(ls[0]);
        let rest = ls.drop_first();
        if starts_with(t, "Name: "@) {
            serial_scan(rest, name, t.skip("Name: "@.len() as int) == name)
        } else if !in_target {
            serial_scan(rest, name, false)
        } else if starts_with(t, "object.serial = "@) {
            Some(trim_by(t.skip("object.serial = "@.len() as int), CharClass::Quote))
        } else {
            serial_scan(rest, name, true)
        }
    }
}

/// The `object.serial` of the source `name` in the output `details` of
/// `pactl list sources`, its quotes removed.
pub open spec fn spec_source_serial(details: Seq<char>, name: Seq<char>) -> Option<Seq<char>> {
    serial_scan(lines(details), name, false)
}

/// The range of the second field of `chars[lo..hi]`, if there is one.
fn second_field_range(chars: &Vec<char>, lo: usize, hi: usize) -> (r: Option<(usize, usize)>)
    requires
        lo <= hi <= chars@.len(),
    ensures
        match r {
            Some((a, b)) => lo <= a <= b <= hi && second_field(
                chars@.subrange(lo as int, hi as int),
            ) == Some(chars@.subrange(a as int, b as int)),
            None => second_field(chars@.subrange(lo as int, hi as int)) is None,
        },
{
    let a1 = skip_class(chars, lo, hi, CharClass::WhiteSpace);
    let b1 = skip_class(chars, a1, hi, CharClass::NonWhiteSpace);
    let a2 = skip_class(chars, b1, hi, CharClass::WhiteSpace);
    let ghost s = chars@.subrange(lo as int, hi as int);
    assert(s.skip(a1 - lo) =~= chars@.subrange(a1 as int, hi as int));
    assert(chars@.subrange(a1 as int, hi as int).skip(b1 - a1) =~= chars@.subrange(
        b1 as int,
        hi as int,
    ));
    assert(chars@.subrange(b1 as int, hi as int).skip(a2 - b1) =~= chars@.subrange(
        a2 as int,
        hi as int,
    ));
    if a2 == hi {
        return None;
    }
    let b2 = skip_class(chars, a2, hi, CharClass::NonWhiteSpace);
    assert(chars@.subrange(a2 as int, hi as int).take(b2 - a2) =~= chars@.subrange(
        a2 as int,
        b2 as int,
    ));
    Some((a2, b2))
}

/// The source names listed in `sources`, the output of
/// `pactl list short sources`: the second field of every line that has
/// one.
pub fn listed_source_names(sources: &str) -> (names: Vec<String>)
    ensures
        names.deep_view() == source_names(lines(sources@)),
{
    let chars = chars_of(sources);
    let n = chars.len();
    let mut names: Vec<String> = Vec::new();
    let mut pos: usize = 0;
    assert(chars@.subrange(0, n as int) =~= chars@);
    while pos < n
        invariant
            n == chars@.len(),
            chars@ == sources@,
            pos <= n,
            source_names(lines(chars@)) == names.deep_view() + source_names(
                lines(chars@.subrange(pos as int, n as int)),
            ),
        decreases n - pos,
    {
        let (lo, hi, next) = next_line(&chars, pos);
        let ghost line = chars@.subrange(lo as int, hi as int);
        let ghost rest = lines(chars@.subrange(next as int, n as int));
        assert((seq![line] + rest)[0] == line);
        assert((seq![line] + rest).drop_first() =~= rest);
        let ghost before = names.deep_view();
        match second_field_range(&chars, lo, hi) {
            Some((a, b)) => {
                let name = String::from_str(sources.substring_char(a, b));
                names.push(name);
                assert(names.deep_view() =~= before.push(chars@.subrange(a as int, b as int)));
                assert(before + (seq![chars@.subrange(a as int, b as int)] + source_names(rest))
                    =~= names.deep_view() + source_names(rest));
            },
            None => {
                assert(Seq::<Seq<char>>::empty() + source_names(rest) =~= source_names(rest));
            },
        }
        pos = next;
    }
    assert(chars@.subrange(n as int, n as int) =~= Seq::<char>::empty());
    assert(names.deep_view() + Seq::<Seq<char>>::empty() =~= names.deep_view());
    names
}

/// The `object.serial` of the source named `source_name` in `details`, the
/// output of `pactl list sources`, with its quotes removed; `None` when
/// that source's block has no serial or no block names that source.
pub fn source_serial(details: &str, source_name: &str) -> (serial: Option<String>)
    ensures
        match serial {
            Some(s) => spec_source_serial(details@, source_name@) == Some(s@),
            None => spec_source_serial(details@, source_name@) is None,
        },
{
    let chars = chars_of(details);
    let wanted = chars_of(source_name);
    let n = chars.len();
    let name_prefix = "Name: ";
    let serial_prefix = "object.serial = ";
    let name_len = name_prefix.unicode_len();
    let serial_len = serial_prefix.unicode_len();
    let mut in_target = false;
    let mut pos: usize = 0;
    assert(chars@.subrange(0, n as int) =~= chars@);
    while pos < n
        invariant
            n == chars@.len(),
            chars@ == details@,
            wanted@ == source_name@,
            name_prefix@ == "Name: "@,
            serial_prefix@ == "object.serial = "@,
            name_len == name_prefix@.len(),
            serial_len == serial_prefix@.len(),
            pos <= n,
            spec_source_serial(details@, source_name@) == serial_scan(
                lines(chars@.subrange(pos as int, n as int)),
                source_name@,
                in_target,
            ),
        decreases n - pos,
    {
        let (lo, hi, next) = next_line(&chars, pos);
        let ghost line = chars@.subrange(lo as int, hi as int);
        let ghost rest = lines(chars@.subrange(next as int, n as int));
        assert((seq![line] + rest)[0] == line);
        assert((seq![line] + rest).drop_first() =~= rest);
        let (a, b) = trim_range(&chars, lo, hi, CharClass::WhiteSpace);
        let ghost t = chars@.subrange(a as int, b as int);
        if range_starts_with(&chars, a, b, name_prefix) {
            assert(t.skip(name_len as int) =~= chars@.subrange(a + name_len, b as int));
            in_target = range_equals(&chars, a + name_len, b, &wanted);
        } else if !in_target {
        } else if range_starts_with(&chars, a, b, serial_prefix) {
            assert(t.skip(serial_len as int) =~= chars@.subrange(a + serial_len, b as int));
            let (c, d) = trim_range(&chars, a + serial_len, b, CharClass::Quote);
            return Some(String::from_str(details.substring_char(c, d)));
        }
        pos = next;
    }
    assert(lines(chars@.subrange(n as int, n as int)) =~= Seq::<Seq<char>>::empty());
    None
}

} // verus!
