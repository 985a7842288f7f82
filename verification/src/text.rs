//! Operations on text that the rest of the library shares: searching,
//! replacing and joining, each stated over sequences of characters.

use vstd::prelude::*;
use vstd::string::*;

verus! {

/// `pattern` stands in `text` at position `at`.
pub open spec fn occurs_at(text: Seq<char>, pattern: Seq<char>, at: int) -> bool {
    &&& 0 <= at
    &&& at + pattern.len() <= text.len()
    &&& text.subrange(at, at + pattern.len()) == pattern
}

/// `text` begins with `prefix`.
pub open spec fn starts_with(text: Seq<char>, prefix: Seq<char>) -> bool {
    occurs_at(text, prefix, 0)
}

/// `text` with every occurrence of `from` replaced by `to`. Occurrences are
/// found from left to right and do not overlap. An empty `from` occurs
/// nowhere.
pub open spec fn replaced(text: Seq<char>, from: Seq<char>, to: Seq<char>) -> Seq<char>
    decreases text.len(),
{
    if from.len() == 0 || text.len() == 0 {
        text
    } else if occurs_at(text, from, 0) {
        to + replaced(text.skip(from.len() as int), from, to)
    } else {
        text.take(1) + replaced(text.skip(1), from, to)
    }
}

/// The parts in order, with `separator` between each two neighbours.
pub open spec fn joined(parts: Seq<Seq<char>>, separator: Seq<char>) -> Seq<char>
    decreases parts.len(),
{
    if parts.len() == 0 {
        Seq::empty()
    } else if parts.len() == 1 {
        parts[0]
    } else {
        joined(parts.drop_last(), separator) + separator + parts.last()
    }
}

/// The view of each string of `strings`.
pub open spec fn texts(strings: Seq<String>) -> Seq<Seq<char>> {
    Seq::new(strings.len(), |i: int| strings[i]@)
}

/// The characters of `s`, in order.
pub fn chars_of(s: &str) -> (r: Vec<char>)
    ensures
        r@ == s@,
{
    let mut out: Vec<char> = Vec::new();
    for c in it: s.chars()
        invariant
            out@ == it.seq().take(it.index()),
    {
        out.push(c);
    }
    out
}

/// Tells whether `pattern` stands in `text` at position `at`.
pub fn found_at(text: &Vec<char>, pattern: &Vec<char>, at: usize) -> (r: bool)
    requires
        at <= text@.len(),
    ensures
        r == occurs_at(text@, pattern@, at as int),
{
    if pattern.len() > text.len() - at {
        return false;
    }
    let mut k: usize = 0;
    while k < pattern.len()
        invariant
            at + pattern.len() <= text.len(),
            k <= pattern.len(),
            forall|j: int| 0 <= j < k ==> text@[at + j] == pattern@[j],
        decreases pattern@.len() - k,
    {
        if text[at + k] != pattern[k] {
            assert(text@.subrange(at as int, at + pattern@.len())[k as int] != pattern@[k as int]);
            return false;
        }
        k += 1;
    }
    assert(text@.subrange(at as int, at + pattern@.len()) =~= pattern@);
    true
}

/// Tells whether `text` begins with `prefix`.
pub fn has_prefix(text: &str, prefix: &str) -> (r: bool)
    ensures
        r == starts_with(text@, prefix@),
{
    let all = chars_of(text);
    let head = chars_of(prefix);
    found_at(&all, &head, 0)
}

/// Builds `text` with every occurrence of `from` replaced by `to`.
pub fn replace(text: &str, from: &str, to: &str) -> (r: String)
    requires
        from@.len() > 0,
    ensures
        r@ == replaced(text@, from@, to@),
{
    let all = chars_of(text);
    let pattern = chars_of(from);
    let n = all.len();
    let mut out = String::new();
    let mut run: usize = 0;
    let mut i: usize = 0;
    assert(text@.subrange(0, 0) + replaced(text@.skip(0), from@, to@) =~= replaced(
        text@,
        from@,
        to@,
    )) by {
        assert(text@.skip(0) =~= text@);
    }
    while i < n
        invariant
            n == text@.len(),
            all@ == text@,
            pattern@ == from@,
            from@.len() > 0,
            run <= i <= n,
            replaced(text@, from@, to@) == out@ + text@.subrange(run as int, i as int) + replaced(
                text@.skip(i as int),
                from@,
                to@,
            ),
        decreases n - i,
    {
        let ghost rest = text@.skip(i as int);
        let ghost before = out@;
        if found_at(&all, &pattern, i) {
            assert(occurs_at(rest, from@, 0)) by {
                assert(rest.subrange(0, from@.len() as int) =~= text@.subrange(
                    i as int,
                    i + from@.len(),
                ));
            }
            let ghost run0 = run as int;
            let ghost i0 = i as int;
            out.append(text.substring_char(run, i));
            out.append(to);
            i += pattern.len();
            run = i;
            assert(rest.skip(from@.len() as int) =~= text@.skip(i as int));
            assert(text@.subrange(run as int, i as int) =~= Seq::<char>::empty());
            assert(out@ + text@.subrange(run as int, i as int) + replaced(
                text@.skip(i as int),
                from@,
                to@,
            ) =~= before + text@.subrange(run0, i0) + (to@ + replaced(
                rest.skip(from@.len() as int),
                from@,
                to@,
            )));
        } else {
            assert(!occurs_at(rest, from@, 0)) by {
                if i + from@.len() <= text@.len() {
                    assert(rest.subrange(0, from@.len() as int) =~= text@.subrange(
                        i as int,
                        i + from@.len(),
                    ));
                }
            }
            assert(rest.skip(1) =~= text@.skip(i + 1));
            assert(text@.subrange(run as int, i as int) + rest.take(1) =~= text@.subrange(
                run as int,
                i + 1,
            ));
            i += 1;
        }
    }
    out.append(text.substring_char(run, n));
    assert(text@.skip(n as int) =~= Seq::<char>::empty());
    out
}

/// Joins `parts` with `separator` between each two neighbours.
pub fn join(parts: &Vec<String>, separator: &str) -> (r: String)
    ensures
        r@ == joined(texts(parts@), separator@),
{
    let mut out = String::new();
    let mut i: usize = 0;
    while i < parts.len()
        invariant
            i <= parts.len(),
            out@ == joined(texts(parts@).take(i as int), separator@),
        decreases parts.len() - i,
    {
        let ghost all = texts(parts@);
        assert(all.take(i + 1).drop_last() =~= all.take(i as int));
        if i > 0 {
            out.append(separator);
        }
        out.append(parts[i].as_str());
        i += 1;
        assert(out@ =~= joined(all.take(i as int), separator@));
    }
    assert(texts(parts@).take(parts.len() as int) =~= texts(parts@));
    out
}

/// A copy of every string of `strings`, in order.
pub fn copy_strings(strings: &Vec<String>) -> (r: Vec<String>)
    ensures
        texts(r@) == texts(strings@),
{
    let mut out: Vec<String> = Vec::new();
    let mut i: usize = 0;
    while i < strings.len()
        invariant
            i <= strings.len(),
            out@.len() == i,
            forall|k: int| 0 <= k < i ==> out@[k]@ == strings@[k]@,
        decreases strings.len() - i,
    {
        out.push(strings[i].clone());
        i += 1;
    }
    assert(texts(out@) =~= texts(strings@));
    out
}

/// Tells whether the two lists hold the same texts in the same order.
pub fn same_strings(left: &Vec<String>, right: &Vec<String>) -> (r: bool)
    ensures
        r == (texts(left@) == texts(right@)),
{
    if left.len() != right.len() {
        assert(texts(left@).len() != texts(right@).len());
        return false;
    }
    let mut i: usize = 0;
    while i < left.len()
        invariant
            left.len() == right.len(),
            i <= left.len(),
            forall|k: int| 0 <= k < i ==> left@[k]@ == right@[k]@,
        decreases left.len() - i,
    {
        if left[i] != right[i] {
            assert(texts(left@)[i as int] != texts(right@)[i as int]);
            return false;
        }
        i += 1;
    }
    assert(texts(left@) =~= texts(right@));
    true
}

} // verus!
