//! Finding test targets and test functions in text that was read elsewhere.
//!
//! Text comes in as lines of characters. Nothing here reads a file or runs a
//! program.

use vstd::prelude::*;
use crate::search::{first_index, lemma_first_index};

verus! {

/// Whether `c` is white space in the sense of `char::is_whitespace`.
pub uninterp spec fn white_space(c: char) -> bool;

/// Calls `char::is_whitespace`, which says whether the character has the
/// Unicode property White_Space. The contract only gives that answer a
/// name; which characters have the property is not stated here.
#[verifier::external_body]
fn is_white_space(c: char) -> (b: bool)
    ensures
        b == white_space(c),
{
    c.is_whitespace()
}

/// The lines held by a vector of lines.
pub open spec fn lines_model(lines: Seq<Vec<char>>) -> Seq<Seq<char>> {
    Seq::new(lines.len(), |i: int| lines[i]@)
}

/// The test "character `i` of `line` is not white space".
pub open spec fn is_visible(line: Seq<char>) -> spec_fn(int) -> bool {
    |i: int| !white_space(line[i])
}

/// Number of white-space characters `line` begins with.
pub open spec fn leading_space(line: Seq<char>) -> int {
    match first_index(line.len() as int, is_visible(line)) {
        Some(i) => i,
        None => line.len() as int,
    }
}

/// `line` without the white space it begins with.
pub open spec fn trimmed_start(line: Seq<char>) -> Seq<char> {
    line.skip(leading_space(line))
}

/// The targets among `lines`: every line that is not empty, without its
/// leading white space, in order.
pub open spec fn targets_in(lines: Seq<Seq<char>>) -> Seq<Seq<char>>
    decreases lines.len(),
{
    if lines.len() == 0 {
        Seq::empty()
    } else if lines.last().len() == 0 {
        targets_in(lines.drop_last())
    } else {
        targets_in(lines.drop_last()).push(trimmed_start(lines.last()))
    }
}

/// The targets that a listing names: those among its lines after the first
/// two, which are a heading.
pub open spec fn listed_targets(lines: Seq<Seq<char>>) -> Seq<Seq<char>> {
    if lines.len() <= 2 {
        Seq::empty()
    } else {
        targets_in(lines.skip(2))
    }
}

/// Removes the white space that `line` begins with.
pub fn trim_start(line: &Vec<char>) -> (rest: Vec<char>)
    ensures
        rest@ == trimmed_start(line@),
{
    let mut start: usize = 0;
    while start < line.len() && is_white_space(line[start])
        invariant
            start <= line.len(),
            forall|k: int| 0 <= k < start ==> !#[trigger] is_visible(line@)(k),
        decreases line.len() - start,
    {
        start += 1;
    }
    proof {
        lemma_first_index(line@.len() as int, is_visible(line@));
        if start < line.len() {
            assert(is_visible(line@)(start as int));
        }
        assert(leading_space(line@) == start);
    }
    let mut rest: Vec<char> = Vec::new();
    let mut i: usize = start;
    while i < line.len()
        invariant
            start <= i <= line.len(),
            rest@ == line@.subrange(start as int, i as int),
        decreases line.len() - i,
    {
        rest.push(line[i]);
        assert(rest@ =~= line@.subrange(start as int, i + 1));
        i += 1;
    }
    rest
}

/// Reads the targets out of a listing: skips the two heading lines, drops
/// empty lines, and trims the start of each remaining line.
pub fn test_targets(lines: &Vec<Vec<char>>) -> (targets: Vec<Vec<char>>)
    ensures
        lines_model(targets@) == listed_targets(lines_model(lines@)),
{
    let mut targets: Vec<Vec<char>> = Vec::new();
    if lines.len() <= 2 {
        assert(lines_model(targets@) =~= Seq::<Seq<char>>::empty());
        return targets;
    }
    let ghost all = lines_model(lines@);
    let mut i: usize = 2;
    assert(lines_model(targets@) =~= targets_in(all.subrange(2, 2)));
    while i < lines.len()
        invariant
            2 <= i <= lines.len(),
            all == lines_model(lines@),
            lines_model(targets@) == targets_in(all.subrange(2, i as int)),
        decreases lines.len() - i,
    {
        let ghost seen = all.subrange(2, i + 1);
        assert(seen.drop_last() =~= all.subrange(2, i as int));
        assert(seen.last() == lines[i as int]@);
        if lines[i].len() != 0 {
            let ghost before = lines_model(targets@);
            targets.push(trim_start(&lines[i]));
            assert(lines_model(targets@) =~= before.push(trimmed_start(lines[i as int]@)));
        }
        i += 1;
    }
    assert(all.subrange(2, i as int) =~= all.skip(2));
    targets
}

/// The line that marks the function after it as a test: `#[test]`.
pub open spec fn test_marker() -> Seq<char> {
    seq!['#', '[', 't', 'e', 's', 't', ']']
}

/// How a function's line begins: `fn` and a space.
pub open spec fn fn_at_start() -> Seq<char> {
    seq!['f', 'n', ' ']
}

/// How `fn` stands inside a line: with a space on each side.
pub open spec fn fn_inside() -> Seq<char> {
    seq![' ', 'f', 'n', ' ']
}

/// Whether `part` stands in `line` at character `at`.
pub open spec fn occurs_at(line: Seq<char>, part: Seq<char>, at: int) -> bool {
    &&& 0 <= at
    &&& at + part.len() <= line.len()
    &&& line.subrange(at, at + part.len()) == part
}

/// Whether `part` stands somewhere in `line`.
pub open spec fn occurs_in(line: Seq<char>, part: Seq<char>) -> bool {
    exists|at: int| occurs_at(line, part, at)
}

/// Whether `line` is taken for the line that declares a function.
pub open spec fn declares_fn(line: Seq<char>) -> bool {
    occurs_at(line, fn_at_start(), 0) || occurs_in(line, fn_inside())
}

/// The test "character `i` of `line` ends a function's name".
pub open spec fn is_name_end(line: Seq<char>) -> spec_fn(int) -> bool {
    |i: int| line[i] == '(' || line[i] == '<'
}

/// Index of the character that ends the name: the first `(` or `<`.
pub open spec fn name_end(line: Seq<char>) -> Option<int> {
    first_index(line.len() as int, is_name_end(line))
}

/// Number of bytes that `c` takes in UTF-8.
pub open spec fn utf8_width(c: char) -> int {
    if (c as u32) < 0x80 {
        1
    } else if (c as u32) < 0x800 {
        2
    } else if (c as u32) < 0x10000 {
        3
    } else {
        4
    }
}

/// Number of bytes that the first `k` characters of `line` take in UTF-8.
pub open spec fn byte_offset(line: Seq<char>, k: int) -> int
    decreases k,
{
    if k <= 0 {
        0
    } else {
        byte_offset(line, k - 1) + utf8_width(line[k - 1])
    }
}

/// The test "the first `k` characters of `line` take at least `bytes` bytes".
pub open spec fn reaches_byte(line: Seq<char>, bytes: int) -> spec_fn(int) -> bool {
    |k: int| byte_offset(line, k) >= bytes
}

/// Index of the character at which the name starts: the one that lies
/// exactly three bytes into the line. There is none where the line is
/// shorter or where the third byte falls inside a character.
pub open spec fn name_start(line: Seq<char>) -> Option<int> {
    match first_index(line.len() as int + 1, reaches_byte(line, 3)) {
        Some(k) => if byte_offset(line, k) == 3 {
            Some(k)
        } else {
            None
        },
        None => None,
    }
}

/// The name that a function's line gives: what stands from the fourth byte
/// up to the first `(` or `<`.
pub open spec fn name_in(line: Seq<char>) -> Option<Seq<char>> {
    match (name_start(line), name_end(line)) {
        (Some(start), Some(end)) => if start <= end {
            Some(line.subrange(start, end))
        } else {
            None
        },
        _ => None,
    }
}

/// What a scan of a source file found.
#[derive(Debug, PartialEq, Eq)]
pub struct TestScan {
    /// Names of the test functions, in the order of the file.
    pub names: Vec<Vec<char>>,
    /// `false` where the scan had to stop: a marker with no function line
    /// after it, or a function line that gives no name.
    pub complete: bool,
}

/// Mathematical model of a [`TestScan`].
pub struct ScanView {
    pub names: Seq<Seq<char>>,
    pub complete: bool,
}

impl View for TestScan {
    type V = ScanView;

    open spec fn view(&self) -> ScanView {
        ScanView { names: lines_model(self.names@), complete: self.complete }
    }
}

/// The scan of `lines` from line `from` on. `pending` says that a marker
/// was seen and the line of its function is still looked for.
///
/// A marker is a line that starts with `#[test]`. The first line after it
/// that declares a function gives the test's name. The scan stops short at
/// the end of the file while a function is looked for, and at a function
/// line that gives no name.
pub open spec fn scan(lines: Seq<Seq<char>>, from: int, pending: bool) -> ScanView
    decreases lines.len() - from,
{
    if from < 0 || from >= lines.len() {
        ScanView { names: Seq::empty(), complete: !pending }
    } else if !pending {
        scan(lines, from + 1, occurs_at(lines[from], test_marker(), 0))
    } else if !declares_fn(lines[from]) {
        scan(lines, from + 1, true)
    } else {
        match name_in(lines[from]) {
            None => ScanView { names: Seq::empty(), complete: false },
            Some(name) => {
                let rest = scan(lines, from + 1, false);
                ScanView { names: seq![name] + rest.names, complete: rest.complete }
            },
        }
    }
}

/// Whether `part` stands in `line` at character `at`.
fn stands_at(line: &Vec<char>, part: &Vec<char>, at: usize) -> (found: bool)
    ensures
        found == occurs_at(line@, part@, at as int),
{
    if at > line.len() || part.len() > line.len() - at {
        return false;
    }
    let mut k: usize = 0;
    while k < part.len()
        invariant
            k <= part.len(),
            at + part.len() <= line.len(),
            forall|j: int| 0 <= j < k ==> line[at + j] == part[j],
        decreases part.len() - k,
    {
        if line[at + k] != part[k] {
            assert(line@.subrange(at as int, at + part.len())[k as int] != part@[k as int]);
            return false;
        }
        k += 1;
    }
    assert(line@.subrange(at as int, at + part.len()) =~= part@);
    true
}

/// Whether `part` stands somewhere in `line`.
fn stands_in(line: &Vec<char>, part: &Vec<char>) -> (found: bool)
    ensures
        found == occurs_in(line@, part@),
{
    if part.len() > line.len() {
        return false;
    }
    let last: usize = line.len() - part.len();
    let mut at: usize = 0;
    while at < last
        invariant
            at <= last,
            last == line.len() - part.len(),
            forall|j: int| 0 <= j < at ==> !occurs_at(line@, part@, j),
        decreases last - at,
    {
        if stands_at(line, part, at) {
            return true;
        }
        at += 1;
    }
    stands_at(line, part, last)
}

/// Whether `line` is taken for the line that declares a function.
fn line_declares_fn(line: &Vec<char>) -> (found: bool)
    ensures
        found == declares_fn(line@),
{
    let at_start: Vec<char> = vec!['f', 'n', ' '];
    let inside: Vec<char> = vec![' ', 'f', 'n', ' '];
    assert(at_start@ =~= fn_at_start());
    assert(inside@ =~= fn_inside());
    stands_at(line, &at_start, 0) || stands_in(line, &inside)
}

/// Whether `line` starts with the test marker.
fn line_is_marker(line: &Vec<char>) -> (found: bool)
    ensures
        found == occurs_at(line@, test_marker(), 0),
{
    let marker: Vec<char> = vec!['#', '[', 't', 'e', 's', 't', ']'];
    assert(marker@ =~= test_marker());
    stands_at(line, &marker, 0)
}

/// Number of bytes that `c` takes in UTF-8.
fn width_of(c: char) -> (width: usize)
    ensures
        width == utf8_width(c),
{
    let code: u32 = c as u32;
    if code < 0x80 {
        1
    } else if code < 0x800 {
        2
    } else if code < 0x10000 {
        3
    } else {
        4
    }
}

/// The name that a function's line gives.
pub fn test_name(line: &Vec<char>) -> (name: Option<Vec<char>>)
    ensures
        match name {
            Some(found) => name_in(line@) == Some(found@),
            None => name_in(line@) is None,
        },
{
    let mut start: usize = 0;
    let mut bytes: usize = 0;
    while start < line.len() && bytes < 3
        invariant
            start <= line.len(),
            bytes == byte_offset(line@, start as int),
            bytes <= 6,
            forall|k: int| 0 <= k < start ==> !#[trigger] reaches_byte(line@, 3)(k),
        decreases line.len() - start,
    {
        assert(!reaches_byte(line@, 3)(start as int));
        bytes += width_of(line[start]);
        start += 1;
    }
    let mut end: usize = 0;
    while end < line.len() && line[end] != '(' && line[end] != '<'
        invariant
            end <= line.len(),
            forall|k: int| 0 <= k < end ==> !#[trigger] is_name_end(line@)(k),
        decreases line.len() - end,
    {
        assert(!is_name_end(line@)(end as int));
        end += 1;
    }
    proof {
        lemma_first_index(line@.len() as int + 1, reaches_byte(line@, 3));
        lemma_first_index(line@.len() as int, is_name_end(line@));
        if bytes >= 3 {
            assert(reaches_byte(line@, 3)(start as int));
        }
        if end < line.len() {
            assert(is_name_end(line@)(end as int));
        }
    }
    if bytes != 3 || end >= line.len() || start > end {
        return None;
    }
    let mut name: Vec<char> = Vec::new();
    let mut i: usize = start;
    while i < end
        invariant
            start <= i <= end <= line.len(),
            name@ == line@.subrange(start as int, i as int),
        decreases end - i,
    {
        name.push(line[i]);
        assert(name@ =~= line@.subrange(start as int, i + 1));
        i += 1;
    }
    Some(name)
}

/// Scans the lines of a source file for test functions.
pub fn scan_tests(lines: &Vec<Vec<char>>) -> (found: TestScan)
    ensures
        found@ == scan(lines_model(lines@), 0, false),
{
    let ghost all = lines_model(lines@);
    let mut names: Vec<Vec<char>> = Vec::new();
    let mut pending = false;
    let mut i: usize = 0;
    assert(lines_model(names@) + scan(all, 0, false).names =~= scan(all, 0, false).names);
    while i < lines.len()
        invariant
            i <= lines.len(),
            all == lines_model(lines@),
            scan(all, 0, false).names == lines_model(names@) + scan(all, i as int, pending).names,
            scan(all, 0, false).complete == scan(all, i as int, pending).complete,
        decreases lines.len() - i,
    {
        assert(all[i as int] == lines[i as int]@);
        if !pending {
            pending = line_is_marker(&lines[i]);
        } else if line_declares_fn(&lines[i]) {
            match test_name(&lines[i]) {
                None => {
                    assert(lines_model(names@) + Seq::<Seq<char>>::empty() =~= lines_model(
                        names@,
                    ));
                    return TestScan { names, complete: false };
                },
                Some(name) => {
                    let ghost before = lines_model(names@);
                    let ghost rest = scan(all, i + 1, false).names;
                    names.push(name);
                    assert(lines_model(names@) =~= before.push(name@));
                    assert(before + (seq![name@] + rest) =~= before.push(name@) + rest);
                    pending = false;
                },
            }
        }
        i += 1;
    }
    assert(lines_model(names@) + Seq::<Seq<char>>::empty() =~= lines_model(names@));
    TestScan { names, complete: !pending }
}

} // verus!
