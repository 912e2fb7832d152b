//! Which build is running: the service's version and the engine inside it.

use crate::text::chars_of;
use vstd::prelude::*;

verus! {

/// Version of the service.
pub const VERSION: &'static str = "1.0.2";

/// Characters that do not count at the ends of a line.
pub open spec fn is_blank(c: char) -> bool {
    ||| '\u{9}' <= c <= '\u{d}'
    ||| c == ' '
    ||| c == '\u{85}'
    ||| c == '\u{a0}'
    ||| c == '\u{1680}'
    ||| '\u{2000}' <= c <= '\u{200a}'
    ||| c == '\u{2028}'
    ||| c == '\u{2029}'
    ||| c == '\u{202f}'
    ||| c == '\u{205f}'
    ||| c == '\u{3000}'
}

/// What is taken off the ends of a piece of text.
#[derive(Clone, Copy)]
pub enum Margin {
    Blanks,
    Quotes,
}

pub open spec fn in_margin(margin: Margin, c: char) -> bool {
    match margin {
        Margin::Blanks => is_blank(c),
        Margin::Quotes => c == '"',
    }
}

/// `s` without the margin that it starts with.
pub open spec fn trim_start(s: Seq<char>, margin: Margin) -> Seq<char>
    decreases s.len(),
{
    if s.len() > 0 && in_margin(margin, s[0]) {
        trim_start(s.skip(1), margin)
    } else {
        s
    }
}

/// `s` without the margin that it ends with.
pub open spec fn trim_end(s: Seq<char>, margin: Margin) -> Seq<char>
    decreases s.len(),
{
    if s.len() > 0 && in_margin(margin, s.last()) {
        trim_end(s.drop_last(), margin)
    } else {
        s
    }
}

/// `s` without the margins that it starts and ends with.
pub open spec fn trim(s: Seq<char>, margin: Margin) -> Seq<char> {
    trim_end(trim_start(s, margin), margin)
}

/// `part` stands in `s` at `at`.
pub open spec fn occurs_at(s: Seq<char>, part: Seq<char>, at: int) -> bool {
    0 <= at && at + part.len() <= s.len() && s.subrange(at, at + part.len()) == part
}

/// First place from `from` on where `part` stands in `s`.
pub open spec fn find(s: Seq<char>, part: Seq<char>, from: int) -> Option<int>
    decreases s.len() + 1 - from,
{
    if from < 0 || from + part.len() > s.len() {
        None
    } else if occurs_at(s, part, from) {
        Some(from)
    } else {
        find(s, part, from + 1)
    }
}

/// Where the line that starts at `from` ends.
pub open spec fn line_end(s: Seq<char>, from: int) -> int
    decreases s.len() - from,
{
    if 0 <= from < s.len() && s[from] != '\n' {
        line_end(s, from + 1)
    } else {
        from
    }
}

/// The line that starts at `from`, trimmed.
pub open spec fn line(s: Seq<char>, from: int) -> Seq<char> {
    trim(s.subrange(from, line_end(s, from)), Margin::Blanks)
}

proof fn line_end_bounds(s: Seq<char>, from: int)
    requires
        0 <= from <= s.len(),
    ensures
        from <= line_end(s, from) <= s.len(),
    decreases s.len() - from,
{
    if from < s.len() && s[from] != '\n' {
        line_end_bounds(s, from + 1);
    }
}

/// Start of the line behind the first line, from `from` on, that reads `wanted`.
pub open spec fn behind_line(s: Seq<char>, wanted: Seq<char>, from: int) -> Option<int>
    decreases s.len() + 1 - from,
    via behind_line_decreases
{
    if from < 0 || from >= s.len() {
        None
    } else if line(s, from) == wanted {
        Some(line_end(s, from) + 1)
    } else {
        behind_line(s, wanted, line_end(s, from) + 1)
    }
}

#[via_fn]
proof fn behind_line_decreases(s: Seq<char>, wanted: Seq<char>, from: int) {
    if 0 <= from < s.len() {
        line_end_bounds(s, from);
    }
}

/// A blank line or the next header ends an entry.
pub open spec fn ends_entry(line: Seq<char>) -> bool {
    line.len() == 0 || line == "[[package]]"@
}

/// The value behind `key` in the lines of an entry from `from` on, the last
/// where there are several, `found` where there is none.
pub open spec fn entry_value(
    s: Seq<char>,
    key: Seq<char>,
    from: int,
    found: Option<Seq<char>>,
) -> Option<Seq<char>>
    decreases s.len() + 1 - from,
    via entry_value_decreases
{
    if from < 0 || from >= s.len() || ends_entry(line(s, from)) {
        found
    } else {
        entry_value(
            s,
            key,
            line_end(s, from) + 1,
            if occurs_at(line(s, from), key, 0) {
                Some(trim(line(s, from).skip(key.len() as int), Margin::Quotes))
            } else {
                found
            },
        )
    }
}

#[via_fn]
proof fn entry_value_decreases(s: Seq<char>, key: Seq<char>, from: int, found: Option<Seq<char>>) {
    if 0 <= from < s.len() {
        line_end_bounds(s, from);
    }
}

/// Version and source of the entry of a package in a `Cargo.lock`.
pub open spec fn spec_lock_entry(lock: Seq<char>, package: Seq<char>) -> Option<
    (Seq<char>, Option<Seq<char>>),
> {
    match behind_line(lock, "name = \""@ + package + "\""@, 0) {
        None => None,
        Some(entry) => match entry_value(lock, "version = "@, entry, None) {
            None => None,
            Some(version) => Some((version, entry_value(lock, "source = "@, entry, None))),
        },
    }
}

fn is_blank_char(c: char) -> (b: bool)
    ensures
        b == is_blank(c),
{
    ('\u{9}' <= c && c <= '\u{d}') || c == ' ' || c == '\u{85}' || c == '\u{a0}' || c == '\u{1680}' || (
    '\u{2000}' <= c && c <= '\u{200a}') || c == '\u{2028}' || c == '\u{2029}' || c == '\u{202f}' || c
        == '\u{205f}' || c == '\u{3000}'
}

fn is_in_margin(margin: Margin, c: char) -> (b: bool)
    ensures
        b == in_margin(margin, c),
{
    match margin {
        Margin::Blanks => is_blank_char(c),
        Margin::Quotes => c == '"',
    }
}

/// A range of characters: from the first up to, not including, the second.
type Span = (usize, usize);

/// Takes the margins off a range of characters.
fn trim_span(s: &Vec<char>, span: Span, margin: Margin) -> (inner: Span)
    requires
        span.0 <= span.1 <= s@.len(),
    ensures
        span.0 <= inner.0 <= inner.1 <= span.1,
        s@.subrange(inner.0 as int, inner.1 as int) == trim(
            s@.subrange(span.0 as int, span.1 as int),
            margin,
        ),
{
    let mut from: usize = span.0;
    let mut to: usize = span.1;
    let ghost whole = s@.subrange(from as int, to as int);
    while from < to && is_in_margin(margin, s[from])
        invariant
            span.0 <= from <= to,
            to == span.1,
            to <= s@.len(),
            trim_start(whole, margin) == trim_start(s@.subrange(from as int, to as int), margin),
        decreases to - from,
    {
        proof {
            let rest = s@.subrange(from as int, to as int);
            assert(rest[0] == s@[from as int]);
            assert(rest.skip(1) =~= s@.subrange(from + 1, to as int));
        }
        from = from + 1;
    }
    let ghost started = s@.subrange(from as int, to as int);
    proof {
        if started.len() > 0 {
            assert(started[0] == s@[from as int]);
        }
    }
    while from < to && is_in_margin(margin, s[to - 1])
        invariant
            span.0 <= from <= to <= span.1,
            span.1 <= s@.len(),
            trim_end(started, margin) == trim_end(s@.subrange(from as int, to as int), margin),
        decreases to - from,
    {
        proof {
            let rest = s@.subrange(from as int, to as int);
            assert(rest.last() == s@[to - 1]);
            assert(rest.drop_last() =~= s@.subrange(from as int, to - 1));
        }
        to = to - 1;
    }
    proof {
        let rest = s@.subrange(from as int, to as int);
        if rest.len() > 0 {
            assert(rest.last() == s@[to - 1]);
        }
    }
    (from, to)
}

/// Whether `part` stands in `s` at `at`, ending at `to` or before.
fn stands_at(s: &Vec<char>, at: usize, to: usize, part: &Vec<char>) -> (b: bool)
    requires
        at <= to <= s@.len(),
    ensures
        b == (at + part@.len() <= to && s@.subrange(at as int, at + part@.len()) == part@),
{
    if to - at < part.len() {
        return false;
    }
    let ghost window = s@.subrange(at as int, at + part@.len());
    let mut i: usize = 0;
    while i < part.len()
        invariant
            i <= part.len(),
            at + part.len() <= to,
            to <= s.len(),
            window == s@.subrange(at as int, at + part@.len()),
            forall|j: int| 0 <= j < i ==> window[j] == part@[j],
        decreases part.len() - i,
    {
        assert(window[i as int] == s@[at + i]);
        if s[at + i] != part[i] {
            return false;
        }
        i = i + 1;
    }
    assert(window =~= part@);
    true
}

fn find_line_end(s: &Vec<char>, from: usize) -> (end: usize)
    requires
        from <= s@.len(),
    ensures
        end == line_end(s@, from as int),
        from <= end <= s@.len(),
{
    let mut end: usize = from;
    while end < s.len() && s[end] != '\n'
        invariant
            from <= end <= s@.len(),
            line_end(s@, from as int) == line_end(s@, end as int),
        decreases s.len() - end,
    {
        end = end + 1;
    }
    end
}

/// What an optional piece of text says.
pub open spec fn text_of(text: Option<String>) -> Option<Seq<char>> {
    match text {
        Some(text) => Some(text@),
        None => None,
    }
}

/// Reads the value behind `key`, if the trimmed line `span` starts with it.
fn keyed_value(lock: &str, s: &Vec<char>, span: Span, key: &str) -> (value: Option<String>)
    requires
        s@ == lock@,
        span.0 <= span.1 <= s@.len(),
    ensures
        ({
            let line = s@.subrange(span.0 as int, span.1 as int);
            text_of(value) == if occurs_at(line, key@, 0) {
                Some(trim(line.skip(key@.len() as int), Margin::Quotes))
            } else {
                None
            }
        }),
{
    let key_chars: Vec<char> = chars_of(key);
    let ghost line = s@.subrange(span.0 as int, span.1 as int);
    proof {
        if span.0 + key@.len() <= span.1 {
            assert(line.subrange(0, key@.len() as int) =~= s@.subrange(
                span.0 as int,
                span.0 + key@.len(),
            ));
        }
    }
    if stands_at(s, span.0, span.1, &key_chars) {
        let inner: Span = trim_span(s, (span.0 + key_chars.len(), span.1), Margin::Quotes);
        proof {
            assert(line.skip(key@.len() as int) =~= s@.subrange(
                span.0 + key@.len(),
                span.1 as int,
            ));
        }
        Some(String::from_str(lock.substring_char(inner.0, inner.1)))
    } else {
        None
    }
}

/// Reads version and source from the lines of an entry that starts at `entry`.
fn read_entry(lock: &str, s: &Vec<char>, entry: usize) -> (found: (Option<String>, Option<String>))
    requires
        s@ == lock@,
        entry <= s@.len(),
    ensures
        text_of(found.0) == entry_value(s@, "version = "@, entry as int, None),
        text_of(found.1) == entry_value(s@, "source = "@, entry as int, None),
{
    let header: Vec<char> = chars_of("[[package]]");
    let mut version: Option<String> = None;
    let mut source: Option<String> = None;
    let mut from: usize = entry;
    while from < s.len()
        invariant
            s@ == lock@,
            from <= s.len(),
            header@ == "[[package]]"@,
            entry_value(s@, "version = "@, entry as int, None) == entry_value(
                s@,
                "version = "@,
                from as int,
                text_of(version),
            ),
            entry_value(s@, "source = "@, entry as int, None) == entry_value(
                s@,
                "source = "@,
                from as int,
                text_of(source),
            ),
        decreases s.len() - from,
    {
        let end: usize = find_line_end(s, from);
        let span: Span = trim_span(s, (from, end), Margin::Blanks);
        let ghost text = s@.subrange(span.0 as int, span.1 as int);
        assert(text == line(s@, from as int));
        proof {
            if span.0 + header@.len() == span.1 {
                assert(s@.subrange(span.0 as int, span.0 + header@.len()) =~= text);
            }
        }
        if span.0 == span.1 || (span.1 - span.0 == header.len() && stands_at(
            s,
            span.0,
            span.1,
            &header,
        )) {
            return (version, source);
        }
        assert(!ends_entry(text));
        let value: Option<String> = keyed_value(lock, s, span, "version = ");
        if value.is_some() {
            version = value;
        }
        let value: Option<String> = keyed_value(lock, s, span, "source = ");
        if value.is_some() {
            source = value;
        }
        if end == s.len() {
            proof {
                reveal_with_fuel(entry_value, 2);
            }
            return (version, source);
        }
        from = end + 1;
    }
    (version, source)
}

/// `(version, source)` of one `[[package]]` entry in a `Cargo.lock`.
pub fn lock_entry(lock: &str, package: &str) -> (entry: Option<(String, Option<String>)>)
    ensures
        spec_lock_entry(lock@, package@) == match entry {
            Some((version, source)) => Some((version@, text_of(source))),
            None => None,
        },
{
    let s: Vec<char> = chars_of(lock);
    let name: String = String::from_str("name = \"").concat(package).concat("\"");
    let wanted: Vec<char> = chars_of(name.as_str());
    let mut from: usize = 0;
    while from < s.len()
        invariant
            s@ == lock@,
            from <= s.len(),
            wanted@ == "name = \""@ + package@ + "\""@,
            behind_line(s@, wanted@, 0) == behind_line(s@, wanted@, from as int),
        decreases s.len() - from,
    {
        let end: usize = find_line_end(&s, from);
        let span: Span = trim_span(&s, (from, end), Margin::Blanks);
        proof {
            if span.0 + wanted@.len() == span.1 {
                assert(s@.subrange(span.0 as int, span.0 + wanted@.len()) =~= s@.subrange(
                    span.0 as int,
                    span.1 as int,
                ));
            }
        }
        let at_end: bool = end == s.len();
        if span.1 - span.0 == wanted.len() && stands_at(&s, span.0, span.1, &wanted) {
            if at_end {
                return None;
            }
            let (version, source) = read_entry(lock, &s, end + 1);
            return match version {
                Some(version) => Some((version, source)),
                None => None,
            };
        }
        if at_end {
            proof {
                reveal_with_fuel(behind_line, 2);
            }
            return None;
        }
        from = end + 1;
    }
    None
}

/// First place from `from` on that holds one of two characters, or the end.
pub open spec fn cut_place(s: Seq<char>, a: char, b: char, from: int) -> int
    decreases s.len() - from,
{
    if 0 <= from < s.len() && s[from] != a && s[from] != b {
        cut_place(s, a, b, from + 1)
    } else {
        from
    }
}

/// `s` up to the first of two characters.
pub open spec fn cut(s: Seq<char>, a: char, b: char) -> Seq<char> {
    s.take(cut_place(s, a, b, 0))
}

/// Last place before `to` that holds `c`.
pub open spec fn last_place(s: Seq<char>, c: char, to: int) -> Option<int>
    decreases to,
{
    if to <= 0 {
        None
    } else if s[to - 1] == c {
        Some(to - 1)
    } else {
        last_place(s, c, to - 1)
    }
}

/// Commit that a source is locked to, abbreviated: the first seven characters
/// behind the last `#`.
pub open spec fn short_commit(source: Seq<char>) -> Seq<char> {
    match last_place(source, '#', source.len() as int) {
        Some(at) => if source.len() - at - 1 < 7 {
            source.skip(at + 1)
        } else {
            source.subrange(at + 1, at + 8)
        },
        None => Seq::empty(),
    }
}

/// What `key` pins in a source: `key` and what stands behind it, up to `#` or
/// the next `key`.
pub open spec fn pinned_by(source: Seq<char>, key: Seq<char>) -> Option<Seq<char>> {
    match find(source, key, 0) {
        None => None,
        Some(at) => {
            let start = at + key.len();
            let end = match find(source, key, start) {
                Some(again) => again,
                None => source.len() as int,
            };
            Some(key + cut(source.subrange(start, end), '#', '#'))
        },
    }
}

/// What pins a git source: a tag, or else a branch, or else a revision.
pub open spec fn pin(source: Seq<char>) -> Seq<char> {
    match (pinned_by(source, "tag="@), pinned_by(source, "branch="@), pinned_by(source, "rev="@)) {
        (Some(tag), _, _) => tag,
        (None, Some(branch), _) => branch,
        (None, None, Some(rev)) => rev,
        (None, None, None) => "default branch"@,
    }
}

pub open spec fn is_git(source: Seq<char>) -> bool {
    source.len() >= 4 && source.take(4) == "git+"@
}

/// `source` without the marks of a git source in front.
pub open spec fn without_git(source: Seq<char>) -> Seq<char>
    decreases source.len(),
{
    if is_git(source) {
        without_git(source.skip(4))
    } else {
        source
    }
}

/// Repository of a git source: all that stands before its query and commit.
pub open spec fn repository(source: Seq<char>) -> Seq<char> {
    cut(without_git(source), '?', '#')
}

/// The engine's build, from its entry in `Cargo.lock`.
pub open spec fn entry_identity(version: Seq<char>, source: Option<Seq<char>>) -> Seq<char> {
    match source {
        Some(source) => if is_git(source) {
            version + " ("@ + repository(source) + " "@ + pin(source) + " @ "@ + short_commit(source)
                + ")"@
        } else {
            version + " ("@ + source + ")"@
        },
        None => version + " (local path checkout — not a pinned build)"@,
    }
}

/// The engine's build, from the whole `Cargo.lock`, if there is one.
pub open spec fn spec_engine_identity(lock: Option<Seq<char>>) -> Seq<char> {
    match lock {
        None => "unknown (no Cargo.lock at build time)"@,
        Some(lock) => match spec_lock_entry(lock, "dxpdf"@) {
            None => "unknown (dxpdf not in Cargo.lock)"@,
            Some((version, source)) => entry_identity(version, source),
        },
    }
}

fn find_part(s: &Vec<char>, part: &Vec<char>, from: usize) -> (at: Option<usize>)
    requires
        from <= s@.len(),
    ensures
        find(s@, part@, from as int) == match at {
            Some(at) => Some(at as int),
            None => None,
        },
        at matches Some(at) ==> from <= at && at + part.len() <= s.len(),
{
    let mut at: usize = from;
    while s.len() - at >= part.len()
        invariant
            from <= at <= s@.len(),
            find(s@, part@, from as int) == find(s@, part@, at as int),
        decreases s.len() - at,
    {
        if stands_at(s, at, s.len(), part) {
            return Some(at);
        }
        if at == s.len() {
            proof {
                reveal_with_fuel(find, 2);
            }
            return None;
        }
        at = at + 1;
    }
    None
}

/// First place in a range of `s` that holds one of two characters, or its end.
fn find_cut(s: &Vec<char>, span: Span, a: char, b: char) -> (at: usize)
    requires
        span.0 <= span.1 <= s@.len(),
    ensures
        span.0 <= at <= span.1,
        s@.subrange(span.0 as int, at as int) == cut(
            s@.subrange(span.0 as int, span.1 as int),
            a,
            b,
        ),
{
    let ghost whole = s@.subrange(span.0 as int, span.1 as int);
    let mut at: usize = span.0;
    while at < span.1 && s[at] != a && s[at] != b
        invariant
            span.0 <= at <= span.1,
            span.1 <= s@.len(),
            whole == s@.subrange(span.0 as int, span.1 as int),
            cut_place(whole, a, b, 0) == cut_place(whole, a, b, at - span.0),
        decreases span.1 - at,
    {
        assert(whole[at - span.0] == s@[at as int]);
        at = at + 1;
    }
    proof {
        if at < span.1 {
            assert(whole[at - span.0] == s@[at as int]);
        }
        assert(whole.take(at - span.0) =~= s@.subrange(span.0 as int, at as int));
    }
    at
}

fn read_pin(source: &str, s: &Vec<char>, key: &str) -> (pin: Option<String>)
    requires
        s@ == source@,
    ensures
        text_of(pin) == pinned_by(source@, key@),
{
    let part: Vec<char> = chars_of(key);
    match find_part(s, &part, 0) {
        None => None,
        Some(at) => {
            let start: usize = at + part.len();
            let end: usize = match find_part(s, &part, start) {
                Some(again) => again,
                None => s.len(),
            };
            let to: usize = find_cut(s, (start, end), '#', '#');
            Some(String::from_str(key).concat(source.substring_char(start, to)))
        },
    }
}

fn read_any_pin(source: &str, s: &Vec<char>) -> (text: String)
    requires
        s@ == source@,
    ensures
        text@ == pin(source@),
{
    match read_pin(source, s, "tag=") {
        Some(tag) => tag,
        None => match read_pin(source, s, "branch=") {
            Some(branch) => branch,
            None => match read_pin(source, s, "rev=") {
                Some(rev) => rev,
                None => String::from_str("default branch"),
            },
        },
    }
}

fn read_commit<'a>(source: &'a str, s: &Vec<char>) -> (commit: &'a str)
    requires
        s@ == source@,
    ensures
        commit@ == short_commit(source@),
{
    let mut to: usize = s.len();
    while to > 0
        invariant
            s@ == source@,
            to <= s.len(),
            last_place(s@, '#', s@.len() as int) == last_place(s@, '#', to as int),
        decreases to,
    {
        if s[to - 1] == '#' {
            let end: usize = if s.len() - to < 7 {
                s.len()
            } else {
                to + 7
            };
            proof {
                assert(s@.subrange(to as int, s@.len() as int) =~= s@.skip(to as int));
            }
            return source.substring_char(to, end);
        }
        to = to - 1;
    }
    source.substring_char(0, 0)
}

/// Where `source` goes on behind the marks of a git source.
fn behind_git(s: &Vec<char>) -> (from: usize)
    ensures
        from <= s@.len(),
        s@.skip(from as int) == without_git(s@),
        from > 0 <==> is_git(s@),
{
    let mark: Vec<char> = chars_of("git+");
    let mut from: usize = 0;
    proof {
        reveal_strlit("git+");
        assert(s@.skip(0) =~= s@);
    }
    while stands_at(s, from, s.len(), &mark)
        invariant
            mark@ == "git+"@,
            mark@.len() == 4,
            from <= s@.len(),
            without_git(s@) == without_git(s@.skip(from as int)),
            from > 0 ==> is_git(s@),
        decreases s.len() - from,
    {
        proof {
            let rest = s@.skip(from as int);
            assert(rest.take(4) =~= s@.subrange(from as int, from + 4));
            assert(rest.skip(4) =~= s@.skip(from + 4));
            if from == 0 {
                assert(s@.take(4) =~= s@.subrange(0, 4));
            }
        }
        from = from + 4;
    }
    proof {
        let rest = s@.skip(from as int);
        if is_git(rest) {
            assert(rest.take(4) =~= s@.subrange(from as int, from + 4));
        }
        if from == 0 && is_git(s@) {
            assert(s@.take(4) =~= s@.subrange(0, 4));
        }
    }
    from
}

/// Names the engine's build after its entry in `Cargo.lock`: the version, and
/// for a git source the repository, what pins it and the commit it is locked to.
fn describe_entry(version: String, source: Option<String>) -> (identity: String)
    ensures
        identity@ == entry_identity(version@, text_of(source)),
{
    match source {
        Some(source) => {
            let text: &str = source.as_str();
            let s: Vec<char> = chars_of(text);
            let from: usize = behind_git(&s);
            if from > 0 {
                let to: usize = find_cut(&s, (from, s.len()), '?', '#');
                proof {
                    assert(s@.subrange(from as int, s@.len() as int) =~= s@.skip(from as int));
                }
                let pin: String = read_any_pin(text, &s);
                version.concat(" (").concat(text.substring_char(from, to)).concat(" ").concat(
                    pin.as_str(),
                ).concat(" @ ").concat(read_commit(text, &s)).concat(")")
            } else {
                version.concat(" (").concat(text).concat(")")
            }
        },
        None => version.concat(" (local path checkout — not a pinned build)"),
    }
}

/// The dxpdf build that the program is linked with, read from the text of
/// `Cargo.lock`, the only file that knows the commit behind a git dependency.
pub fn engine_identity(lock: Option<&str>) -> (identity: String)
    ensures
        identity@ == spec_engine_identity(
            match lock {
                Some(lock) => Some(lock@),
                None => None,
            },
        ),
{
    match lock {
        None => String::from_str("unknown (no Cargo.lock at build time)"),
        Some(lock) => match lock_entry(lock, "dxpdf") {
            None => String::from_str("unknown (dxpdf not in Cargo.lock)"),
            Some((version, source)) => describe_entry(version, source),
        },
    }
}

pub open spec fn spec_version_text(version: Seq<char>, engine: Seq<char>) -> Seq<char> {
    "dxpdf-service "@ + version + " (engine: dxpdf "@ + engine + ")"@
}

/// Names the running build: the service's version and the engine inside it.
pub fn version_text(version: &str, engine: &str) -> (text: String)
    ensures
        text@ == spec_version_text(version@, engine@),
{
    String::from_str("dxpdf-service ").concat(version).concat(" (engine: dxpdf ").concat(
        engine,
    ).concat(")")
}

/// First line of the log of every run.
pub fn start_banner(version: &str, engine: &str) -> (text: String)
    ensures
        text@ == "dxpdf-service "@ + version@ + " starting (engine: dxpdf "@ + engine@ + ")"@,
{
    String::from_str("dxpdf-service ").concat(version).concat(" starting (engine: dxpdf ").concat(
        engine,
    ).concat(")")
}

/// The descriptive strings of the program file, as the system shows them.
pub open spec fn spec_version_resource(engine: Seq<char>) -> Seq<(Seq<char>, Seq<char>)> {
    seq![
        ("ProductName"@, "dxpdf-service"@),
        ("FileDescription"@, "dxpdf DOCX to PDF conversion service (HTTP)"@),
        ("OriginalFilename"@, "dxpdf-service.exe"@),
        ("InternalName"@, "dxpdf-service"@),
        ("LegalCopyright"@, "MIT licensed"@),
        ("Comments"@, "engine: dxpdf "@ + engine),
    ]
}

/// The strings that the program file is stamped with. The engine is not a
/// version number, so it rides in the comments.
pub fn version_resource(engine: &str) -> (strings: Vec<(&'static str, String)>)
    ensures
        strings@.len() == spec_version_resource(engine@).len(),
        forall|i: int|
            0 <= i < strings@.len() ==> ((#[trigger] strings@[i]).0@, strings@[i].1@)
                == spec_version_resource(engine@)[i],
{
    let mut strings: Vec<(&'static str, String)> = Vec::new();
    strings.push(("ProductName", String::from_str("dxpdf-service")));
    strings.push(
        ("FileDescription", String::from_str("dxpdf DOCX to PDF conversion service (HTTP)")),
    );
    strings.push(("OriginalFilename", String::from_str("dxpdf-service.exe")));
    strings.push(("InternalName", String::from_str("dxpdf-service")));
    strings.push(("LegalCopyright", String::from_str("MIT licensed")));
    strings.push(("Comments", String::from_str("engine: dxpdf ").concat(engine)));
    strings
}

proof fn cut_place_is(s: Seq<char>, a: char, b: char, from: int, place: int)
    requires
        0 <= from <= place <= s.len(),
        forall|i: int| from <= i < place ==> #[trigger] s[i] != a && s[i] != b,
        place < s.len() ==> s[place] == a || s[place] == b,
    ensures
        cut_place(s, a, b, from) == place,
    decreases place - from,
{
    if from < place {
        assert(s[from] != a && s[from] != b);
        cut_place_is(s, a, b, from + 1, place);
    }
}

proof fn last_place_is(s: Seq<char>, c: char, place: int, to: int)
    requires
        0 <= place < to <= s.len(),
        s[place] == c,
        forall|i: int| place < i < to ==> #[trigger] s[i] != c,
    ensures
        last_place(s, c, to) == Some(place),
    decreases to,
{
    if place < to - 1 {
        assert(s[to - 1] != c);
        last_place_is(s, c, place, to - 1);
    }
}

proof fn find_is(s: Seq<char>, part: Seq<char>, from: int, place: Option<int>)
    requires
        0 <= from <= s.len() + 1,
        match place {
            Some(at) => from <= at && occurs_at(s, part, at) && forall|i: int|
                from <= i < at ==> !#[trigger] occurs_at(s, part, i),
            None => forall|i: int| from <= i ==> !#[trigger] occurs_at(s, part, i),
        },
    ensures
        find(s, part, from) == place,
    decreases s.len() + 1 - from,
{
    if from + part.len() <= s.len() && !occurs_at(s, part, from) {
        find_is(s, part, from + 1, place);
    }
}

/// An engine pinned by a git tag is named with the commit that the tag was
/// locked to.
pub proof fn tagged_engine_names_commit(
    version: Seq<char>,
    repo: Seq<char>,
    tag: Seq<char>,
    commit: Seq<char>,
    source: Seq<char>,
)
    requires
        source == "git+"@ + repo + "?tag="@ + tag + "#"@ + commit,
        !is_git(repo + "?tag="@ + tag + "#"@ + commit),
        forall|i: int| 0 <= i < repo.len() ==> #[trigger] repo[i] != '?' && repo[i] != '#',
        forall|i: int| 0 <= i < tag.len() ==> #[trigger] tag[i] != '#',
        forall|i: int| 0 <= i < commit.len() ==> #[trigger] commit[i] != '#',
        commit.len() >= 7,
        forall|i: int|
            #[trigger] occurs_at(source, "tag="@, i) ==> i == 5 + repo.len(),
    ensures
        entry_identity(version, Some(source)) == version + " ("@ + repo + " "@ + ("tag="@ + tag)
            + " @ "@ + commit.take(7) + ")"@,
{
    reveal_strlit("git+");
    reveal_strlit("?tag=");
    reveal_strlit("tag=");
    reveal_strlit("#");
    let r = repo.len() as int;
    let t = tag.len() as int;
    let body = repo + "?tag="@ + tag + "#"@ + commit;
    assert(source.take(4) =~= "git+"@);
    assert(source.skip(4) =~= body);
    assert(without_git(source) == body) by {
        reveal_with_fuel(without_git, 2);
    }
    assert(body[r] == '?');
    assert forall|i: int| 0 <= i < r implies #[trigger] body[i] != '?' && body[i] != '#' by {
        assert(body[i] == repo[i]);
    }
    cut_place_is(body, '?', '#', 0, r);
    assert(body.take(r) =~= repo);
    // The pin.
    let at = 5 + r;
    assert(source.subrange(at, at + 4) =~= "tag="@);
    assert(occurs_at(source, "tag="@, at));
    find_is(source, "tag="@, 0, Some(at));
    find_is(source, "tag="@, at + 4, None);
    let rest = source.subrange(at + 4, source.len() as int);
    assert(rest[t] == '#');
    assert forall|i: int| 0 <= i < t implies #[trigger] rest[i] != '#' by {
        assert(rest[i] == tag[i]);
    }
    cut_place_is(rest, '#', '#', 0, t);
    assert(rest.take(t) =~= tag);
    // The commit.
    let hash = at + 4 + t;
    assert(source[hash] == '#');
    assert forall|i: int| hash < i < source.len() implies #[trigger] source[i] != '#' by {
        assert(source[i] == commit[i - hash - 1]);
    }
    last_place_is(source, '#', hash, source.len() as int);
    assert(short_commit(source) =~= commit.take(7));
}

/// What is taken off the ends of a line is the white space of Unicode, off a value
/// it is quotes.
pub proof fn margins_are_white_space_or_quotes(c: char)
    ensures
        in_margin(Margin::Quotes, c) <==> c == '"',
        in_margin(Margin::Blanks, c) <==> seq![
            '\t', '\n', '\u{b}', '\u{c}', '\r', ' ', '\u{85}', '\u{a0}', '\u{1680}', '\u{2000}',
            '\u{2001}', '\u{2002}', '\u{2003}', '\u{2004}', '\u{2005}', '\u{2006}', '\u{2007}',
            '\u{2008}', '\u{2009}', '\u{200a}', '\u{2028}', '\u{2029}', '\u{202f}', '\u{205f}',
            '\u{3000}',
        ].contains(c),
{
    let all = seq![
        '\t', '\n', '\u{b}', '\u{c}', '\r', ' ', '\u{85}', '\u{a0}', '\u{1680}', '\u{2000}',
        '\u{2001}', '\u{2002}', '\u{2003}', '\u{2004}', '\u{2005}', '\u{2006}', '\u{2007}',
        '\u{2008}', '\u{2009}', '\u{200a}', '\u{2028}', '\u{2029}', '\u{202f}', '\u{205f}',
        '\u{3000}',
    ];
    assert(all[0] == '\t' && all[1] == '\n' && all[2] == '\u{b}' && all[3] == '\u{c}' && all[4]
        == '\r' && all[5] == ' ' && all[6] == '\u{85}' && all[7] == '\u{a0}' && all[8] == '\u{1680}'
        && all[9] == '\u{2000}' && all[10] == '\u{2001}' && all[11] == '\u{2002}' && all[12]
        == '\u{2003}' && all[13] == '\u{2004}' && all[14] == '\u{2005}' && all[15] == '\u{2006}'
        && all[16] == '\u{2007}' && all[17] == '\u{2008}' && all[18] == '\u{2009}' && all[19]
        == '\u{200a}' && all[20] == '\u{2028}' && all[21] == '\u{2029}' && all[22] == '\u{202f}'
        && all[23] == '\u{205f}' && all[24] == '\u{3000}');
    assert(all.len() == 25);
}

proof fn trim_start_is(front: Seq<char>, rest: Seq<char>, margin: Margin)
    requires
        forall|i: int| 0 <= i < front.len() ==> in_margin(margin, #[trigger] front[i]),
        rest.len() > 0 ==> !in_margin(margin, rest[0]),
    ensures
        trim_start(front + rest, margin) == rest,
    decreases front.len(),
{
    let s = front + rest;
    if front.len() > 0 {
        assert(s[0] == front[0]);
        assert(s.skip(1) =~= front.skip(1) + rest);
        assert forall|i: int| 0 <= i < front.skip(1).len() implies in_margin(
            margin,
            #[trigger] front.skip(1)[i],
        ) by {
            assert(front.skip(1)[i] == front[i + 1]);
        }
        trim_start_is(front.skip(1), rest, margin);
    } else {
        assert(s =~= rest);
    }
}

proof fn trim_end_is(rest: Seq<char>, back: Seq<char>, margin: Margin)
    requires
        forall|i: int| 0 <= i < back.len() ==> in_margin(margin, #[trigger] back[i]),
        rest.len() > 0 ==> !in_margin(margin, rest.last()),
    ensures
        trim_end(rest + back, margin) == rest,
    decreases back.len(),
{
    let s = rest + back;
    if back.len() > 0 {
        assert(s.last() == back[back.len() - 1]);
        assert(s.drop_last() =~= rest + back.drop_last());
        assert forall|i: int| 0 <= i < back.drop_last().len() implies in_margin(
            margin,
            #[trigger] back.drop_last()[i],
        ) by {
            assert(back.drop_last()[i] == back[i]);
        }
        trim_end_is(rest, back.drop_last(), margin);
    } else {
        assert(s =~= rest);
    }
}

/// Trimming takes off all of the margin on either side and nothing else.
pub proof fn trimming_leaves_the_core(
    front: Seq<char>,
    core: Seq<char>,
    back: Seq<char>,
    margin: Margin,
)
    requires
        forall|i: int| 0 <= i < front.len() ==> in_margin(margin, #[trigger] front[i]),
        forall|i: int| 0 <= i < back.len() ==> in_margin(margin, #[trigger] back[i]),
        core.len() > 0,
        !in_margin(margin, core[0]),
        !in_margin(margin, core.last()),
    ensures
        trim(front + core + back, margin) == core,
{
    assert(front + core + back =~= front + (core + back));
    trim_start_is(front, core + back, margin);
    trim_end_is(core, back, margin);
}

/// A line of `s` starts at `at`.
pub open spec fn starts_line(s: Seq<char>, at: int) -> bool {
    0 <= at < s.len() && (at == 0 || s[at - 1] == '\n')
}

/// A line runs up to the next newline, or to the end.
pub proof fn lines_end_at_newlines(s: Seq<char>, from: int, end: int)
    requires
        0 <= from <= end <= s.len(),
        forall|i: int| from <= i < end ==> #[trigger] s[i] != '\n',
        end < s.len() ==> s[end] == '\n',
    ensures
        line_end(s, from) == end,
        line(s, from) == trim(s.subrange(from, end), Margin::Blanks),
    decreases end - from,
{
    if from < end {
        assert(s[from] != '\n');
        lines_end_at_newlines(s, from + 1, end);
    }
}

proof fn line_end_extent(s: Seq<char>, from: int)
    requires
        0 <= from <= s.len(),
    ensures
        from <= line_end(s, from) <= s.len(),
        forall|i: int| from <= i < line_end(s, from) ==> #[trigger] s[i] != '\n',
        line_end(s, from) < s.len() ==> s[line_end(s, from)] == '\n',
    decreases s.len() - from,
{
    if from < s.len() && s[from] != '\n' {
        line_end_extent(s, from + 1);
    }
}

proof fn line_behind(front: Seq<char>, s: Seq<char>, at: int)
    requires
        0 <= at <= s.len(),
    ensures
        line_end(front + s, front.len() + at) == front.len() + line_end(s, at),
        line(front + s, front.len() + at) == line(s, at),
{
    let whole = front + s;
    let f = front.len() as int;
    let end = line_end(s, at);
    line_end_extent(s, at);
    assert forall|i: int| f + at <= i < f + end implies #[trigger] whole[i] != '\n' by {
        assert(whole[i] == s[i - f]);
    }
    if end < s.len() {
        assert(whole[f + end] == s[end]);
    }
    lines_end_at_newlines(whole, f + at, f + end);
    assert(whole.subrange(f + at, f + end) =~= s.subrange(at, end));
}

proof fn line_in_front(s: Seq<char>, back: Seq<char>, at: int)
    requires
        0 <= at < s.len(),
        s.last() == '\n',
    ensures
        line_end(s + back, at) == line_end(s, at) < s.len(),
        line(s + back, at) == line(s, at),
{
    let whole = s + back;
    let end = line_end(s, at);
    line_end_extent(s, at);
    assert(end < s.len()) by {
        if end == s.len() {
            assert(s[s.len() - 1] != '\n');
        }
    }
    assert forall|i: int| at <= i < end implies #[trigger] whole[i] != '\n' by {
        assert(whole[i] == s[i]);
    }
    lines_end_at_newlines(whole, at, end);
    assert(whole.subrange(at, end) =~= s.subrange(at, end));
}

proof fn behind_line_is(s: Seq<char>, wanted: Seq<char>, from: int, at: int)
    requires
        starts_line(s, from),
        starts_line(s, at),
        from <= at,
        line(s, at) == wanted,
        forall|i: int| from <= i < at && #[trigger] starts_line(s, i) ==> line(s, i) != wanted,
    ensures
        behind_line(s, wanted, from) == Some(line_end(s, at) + 1),
    decreases at - from,
{
    if from < at {
        line_end_extent(s, from);
        let end = line_end(s, from);
        assert(s[at - 1] == '\n');
        assert(end < at);
        assert(starts_line(s, end + 1));
        behind_line_is(s, wanted, end + 1, at);
    }
}

proof fn behind_line_is_none(s: Seq<char>, wanted: Seq<char>, from: int)
    requires
        starts_line(s, from) || from >= s.len(),
        forall|i: int| from <= i && #[trigger] starts_line(s, i) ==> line(s, i) != wanted,
    ensures
        behind_line(s, wanted, from) is None,
    decreases s.len() + 1 - from,
{
    if from < s.len() {
        line_end_extent(s, from);
        let end = line_end(s, from);
        assert(starts_line(s, from));
        assert(end + 1 < s.len() ==> starts_line(s, end + 1));
        behind_line_is_none(s, wanted, end + 1);
    }
}

/// The entry goes on, from `from`, up to and with the line at `at`.
pub open spec fn in_entry(s: Seq<char>, from: int, at: int) -> bool {
    &&& from <= at
    &&& starts_line(s, at)
    &&& forall|i: int|
        from <= i <= at && #[trigger] starts_line(s, i) ==> line(s, i).len() > 0 && line(s, i)
            != "[[package]]"@
}

/// The value of a key in an entry is that of the last line that starts with it;
/// lines behind the entry do not count.
pub proof fn entry_value_is_the_last(
    s: Seq<char>,
    key: Seq<char>,
    from: int,
    found: Option<Seq<char>>,
    at: Option<int>,
)
    requires
        starts_line(s, from) || from == s.len(),
        at matches Some(at) ==> in_entry(s, from, at) && occurs_at(line(s, at), key, 0),
        forall|i: int|
            (at matches Some(at) ==> at < i) && #[trigger] in_entry(s, from, i) ==> !occurs_at(
                line(s, i),
                key,
                0,
            ),
    ensures
        entry_value(s, key, from, found) == match at {
            Some(at) => Some(trim(line(s, at).skip(key.len() as int), Margin::Quotes)),
            None => found,
        },
    decreases s.len() + 1 - from,
{
    if from < s.len() {
        line_end_extent(s, from);
        let end = line_end(s, from);
        let text = line(s, from);
        assert(starts_line(s, from));
        if !ends_entry(text) {
            assert forall|i: int| from <= i <= from && #[trigger] starts_line(s, i) implies line(
                s,
                i,
            ).len() > 0 && line(s, i) != "[[package]]"@ by {}
            assert(in_entry(s, from, from));
            let next = end + 1;
            let now = if occurs_at(text, key, 0) {
                Some(trim(text.skip(key.len() as int), Margin::Quotes))
            } else {
                found
            };
            if next >= s.len() {
                if let Some(place) = at {
                    if place > from {
                        assert(s[place - 1] == '\n');
                    }
                }
                reveal_with_fuel(entry_value, 2);
            } else {
                assert(starts_line(s, next));
                assert forall|i: int| #[trigger] in_entry(s, next, i) implies in_entry(s, from, i) by {
                    assert forall|j: int| from <= j <= i && #[trigger] starts_line(s, j) implies line(
                        s,
                        j,
                    ).len() > 0 && line(s, j) != "[[package]]"@ by {
                        if from < j < next {
                            assert(s[j - 1] == '\n');
                        }
                    }
                }
                if at == Some(from) {
                    entry_value_is_the_last(s, key, next, now, None);
                } else {
                    if let Some(place) = at {
                        assert(s[place - 1] == '\n');
                        assert(next <= place);
                        assert(in_entry(s, next, place));
                    }
                    entry_value_is_the_last(s, key, next, now, at);
                }
            }
        } else {
            if let Some(place) = at {
                assert(line(s, from).len() > 0 && line(s, from) != "[[package]]"@);
            }
        }
    }
}

/// A lock file around the entry of a package: the lines before it, those that
/// name the package, its version and, unless it is a local checkout, its source,
/// and the lines behind.
pub struct LockParts {
    pub before: Seq<char>,
    pub name_line: Seq<char>,
    pub version_line: Seq<char>,
    pub source_line: Option<Seq<char>>,
    pub after: Seq<char>,
}

/// `s` stands on one line.
pub open spec fn on_one_line(s: Seq<char>) -> bool {
    forall|i: int| 0 <= i < s.len() ==> #[trigger] s[i] != '\n'
}

/// `s` has no quotes at its ends.
pub open spec fn is_unquoted(s: Seq<char>) -> bool {
    s.len() > 0 && s[0] != '"' && s.last() != '"'
}

impl LockParts {
    /// The whole file.
    pub open spec fn text(self) -> Seq<char> {
        self.before + self.name_line + "\n"@ + self.version_line + "\n"@ + (match self.source_line {
            Some(source_line) => source_line + "\n"@,
            None => Seq::empty(),
        }) + self.after
    }

    /// The entry is that of this package, in this version and from this source.
    /// The lines before it name other things or none; those behind, as far as
    /// they belong to the entry, are neither a version nor a source.
    pub open spec fn describe(
        self,
        package: Seq<char>,
        version: Seq<char>,
        source: Option<Seq<char>>,
    ) -> bool {
        &&& self.before.len() > 0 ==> self.before.last() == '\n'
        &&& forall|i: int|
            #[trigger] starts_line(self.before, i) ==> line(self.before, i) != "name = \""@ + package
                + "\""@
        &&& on_one_line(self.name_line)
        &&& trim(self.name_line, Margin::Blanks) == "name = \""@ + package + "\""@
        &&& on_one_line(self.version_line)
        &&& trim(self.version_line, Margin::Blanks) == "version = \""@ + version + "\""@
        &&& is_unquoted(version)
        &&& match (self.source_line, source) {
            (Some(source_line), Some(source)) => {
                &&& on_one_line(source_line)
                &&& trim(source_line, Margin::Blanks) == "source = \""@ + source + "\""@
                &&& is_unquoted(source)
            },
            (None, None) => true,
            _ => false,
        }
        &&& forall|i: int|
            #[trigger] in_entry(self.after, 0, i) ==> !occurs_at(
                line(self.after, i),
                "version = "@,
                0,
            ) && !occurs_at(line(self.after, i), "source = "@, 0)
    }
}

proof fn trim_len(s: Seq<char>, margin: Margin)
    ensures
        trim(s, margin).len() > 0 ==> s.len() > 0,
{
    reveal_with_fuel(trim_start, 1);
    reveal_with_fuel(trim_end, 1);
}

proof fn quoted_value(key: Seq<char>, text: Seq<char>, value: Seq<char>)
    requires
        text == key + "\""@ + value + "\""@,
        is_unquoted(value),
    ensures
        occurs_at(text, key, 0),
        trim(text.skip(key.len() as int), Margin::Quotes) == value,
{
    reveal_strlit("\"");
    let quote = seq!['"'];
    assert("\""@ =~= quote);
    assert(text.subrange(0, key.len() as int) =~= key);
    assert(text.skip(key.len() as int) =~= quote + value + quote);
    trimming_leaves_the_core(quote, value, quote, Margin::Quotes);
}

/// The search for a package yields the place behind the line that names it,
/// whatever stands before.
pub proof fn entry_is_found_wherever_it_stands(
    before: Seq<char>,
    name_line: Seq<char>,
    rest: Seq<char>,
    wanted: Seq<char>,
)
    requires
        before.len() > 0 ==> before.last() == '\n',
        forall|i: int| #[trigger] starts_line(before, i) ==> line(before, i) != wanted,
        on_one_line(name_line),
        name_line.len() > 0,
        trim(name_line, Margin::Blanks) == wanted,
    ensures
        behind_line(before + name_line + "\n"@ + rest, wanted, 0) == Some(
            (before.len() + name_line.len() + 1) as int,
        ),
{
    reveal_strlit("\n");
    let tail = name_line + "\n"@ + rest;
    let s = before + name_line + "\n"@ + rest;
    let b = before.len() as int;
    let n = name_line.len() as int;
    assert(s =~= before + tail);
    assert(tail[n] == '\n');
    assert forall|i: int| 0 <= i < n implies #[trigger] tail[i] != '\n' by {
        assert(tail[i] == name_line[i]);
    }
    lines_end_at_newlines(tail, 0, n);
    assert(tail.subrange(0, n) =~= name_line);
    line_behind(before, tail, 0);
    assert(starts_line(s, b)) by {
        if b > 0 {
            assert(s[b - 1] == before.last());
        }
    }
    assert forall|i: int| 0 <= i < b && #[trigger] starts_line(s, i) implies line(s, i) != wanted by {
        if i > 0 {
            assert(before[i - 1] == s[i - 1]);
        }
        assert(starts_line(before, i));
        line_in_front(before, tail, i);
    }
    behind_line_is(s, wanted, 0, b);
}

/// A package is found only if some line names it.
pub proof fn unnamed_package_has_no_entry(
    lock: &str,
    package: &str,
    entry: Option<(String, Option<String>)>,
)
    requires
        call_ensures(lock_entry, (lock, package), entry),
        forall|i: int|
            #[trigger] starts_line(lock@, i) ==> line(lock@, i) != "name = \""@ + package@ + "\""@,
    ensures
        entry is None,
{
    behind_line_is_none(lock@, "name = \""@ + package@ + "\""@, 0);
}

/// Wherever the entry of a package stands in a lock file, and whatever stands
/// around it, its version and its source are read as they are written.
pub proof fn entry_reads_as_written(
    parts: LockParts,
    version: Seq<char>,
    source: Option<Seq<char>>,
    lock: &str,
    package: &str,
    entry: Option<(String, Option<String>)>,
)
    requires
        lock@ == parts.text(),
        parts.describe(package@, version, source),
        call_ensures(lock_entry, (lock, package), entry),
    ensures
        entry matches Some((found, from)) && found@ == version && match (from, source) {
            (Some(from), Some(source)) => from@ == source,
            (None, None) => true,
            _ => false,
        },
{
    entry_is_read(parts, package@, version, source);
}

proof fn entry_is_read(
    parts: LockParts,
    package: Seq<char>,
    version: Seq<char>,
    source: Option<Seq<char>>,
)
    requires
        parts.describe(package, version, source),
    ensures
        spec_lock_entry(parts.text(), package) == Some((version, source)),
{
    reveal_strlit("\n");
    reveal_strlit("version = ");
    reveal_strlit("source = ");
    reveal_strlit("version = \"");
    reveal_strlit("source = \"");
    reveal_strlit("name = \"");
    reveal_strlit("\"");
    reveal_strlit("[[package]]");
    let s = parts.text();
    let wanted = "name = \""@ + package + "\""@;
    let source_text = match parts.source_line {
        Some(source_line) => source_line + "\n"@,
        None => Seq::empty(),
    };
    let rest = parts.version_line + "\n"@ + source_text + parts.after;
    let head = parts.before + parts.name_line + "\n"@;
    assert(s =~= head + rest);
    trim_len(parts.name_line, Margin::Blanks);
    entry_is_found_wherever_it_stands(parts.before, parts.name_line, rest, wanted);
    let e = head.len() as int;
    let v = parts.version_line.len() as int;
    assert(s[e - 1] == '\n');
    // The line of the version.
    trim_len(parts.version_line, Margin::Blanks);
    assert(rest[v] == '\n');
    assert forall|i: int| 0 <= i < v implies #[trigger] rest[i] != '\n' by {
        assert(rest[i] == parts.version_line[i]);
    }
    lines_end_at_newlines(rest, 0, v);
    assert(rest.subrange(0, v) =~= parts.version_line);
    line_behind(head, rest, 0);
    let version_text = line(s, e);
    assert("version = \""@ =~= "version = "@ + "\""@);
    quoted_value("version = "@, version_text, version);
    assert(version_text[0] == 'v');
    // The line of the source, if there is one.
    let next = e + v + 1;
    let lead = head + parts.version_line + "\n"@;
    let tail = source_text + parts.after;
    assert(s =~= lead + tail);
    let a = next + source_text.len();
    let full = lead + source_text;
    assert(s =~= full + parts.after);
    if let Some(source_line) = parts.source_line {
        let n = source_line.len() as int;
        trim_len(source_line, Margin::Blanks);
        assert(tail[n] == '\n');
        assert forall|i: int| 0 <= i < n implies #[trigger] tail[i] != '\n' by {
            assert(tail[i] == source_line[i]);
        }
        lines_end_at_newlines(tail, 0, n);
        assert(tail.subrange(0, n) =~= source_line);
        line_behind(lead, tail, 0);
        assert("source = \""@ =~= "source = "@ + "\""@);
        quoted_value("source = "@, line(s, next), source->0);
        assert(line(s, next)[0] == 's');
    }
    assert(!occurs_at(version_text, "source = "@, 0)) by {
        if occurs_at(version_text, "source = "@, 0) {
            assert(version_text.subrange(0, 9)[0] == 's');
        }
    }
    assert(parts.source_line is Some ==> !occurs_at(line(s, next), "version = "@, 0)) by {
        if parts.source_line is Some && occurs_at(line(s, next), "version = "@, 0) {
            assert(line(s, next).subrange(0, 10)[0] == 'v');
        }
    }
    // Which lines belong to the entry.
    assert(starts_line(s, e));
    assert forall|i: int| e < i < a && #[trigger] starts_line(s, i) implies i == next
        && parts.source_line is Some by {
        assert(s[i - 1] == '\n');
        if i <= e + v {
            assert(s[i - 1] == rest[i - 1 - e]);
        } else if i > next {
            assert(s[i - 1] == tail[i - 1 - next]);
        }
    }
    assert("[[package]]"@[0] == '[');
    assert(in_entry(s, e, e));
    if parts.source_line is Some {
        assert(s[next - 1] == '\n') by {
            assert(s[next - 1] == rest[v]);
        }
        assert(starts_line(s, next));
        assert(in_entry(s, e, next));
    }
    assert(s[a - 1] == '\n') by {
        assert(s[a - 1] == full[a - 1]);
        if parts.source_line is None {
            assert(full =~= lead);
        }
    }
    assert forall|i: int| a <= i && #[trigger] in_entry(s, e, i) implies in_entry(
        parts.after,
        0,
        i - a,
    ) && line(s, i) == line(parts.after, i - a) by {
        line_behind(full, parts.after, i - a);
        if i > a {
            assert(parts.after[i - a - 1] == s[i - 1]);
        }
        assert(starts_line(parts.after, i - a));
        assert forall|j: int| 0 <= j <= i - a && #[trigger] starts_line(parts.after, j) implies line(
            parts.after,
            j,
        ).len() > 0 && line(parts.after, j) != "[[package]]"@ by {
            line_behind(full, parts.after, j);
            if j > 0 {
                assert(s[a + j - 1] == parts.after[j - 1]);
            }
            assert(starts_line(s, a + j));
        }
    }
    assert forall|i: int| e < i && #[trigger] in_entry(s, e, i) implies !occurs_at(
        line(s, i),
        "version = "@,
        0,
    ) by {
        assert(starts_line(s, i));
        if i >= a {
            assert(in_entry(parts.after, 0, i - a));
        }
    }
    entry_value_is_the_last(s, "version = "@, e, None, Some(e));
    let source_at = if parts.source_line is Some {
        Some(next)
    } else {
        None
    };
    assert forall|i: int|
        (source_at matches Some(at) ==> at < i) && #[trigger] in_entry(s, e, i) implies !occurs_at(
        line(s, i),
        "source = "@,
        0,
    ) by {
        assert(starts_line(s, i));
        if i >= a {
            assert(in_entry(parts.after, 0, i - a));
        }
    }
    entry_value_is_the_last(s, "source = "@, e, None, source_at);
}

proof fn git_engine_is_described(
    version: Seq<char>,
    repo: Seq<char>,
    query: Seq<char>,
    commit: Seq<char>,
    source: Seq<char>,
)
    requires
        source == "git+"@ + repo + query + "#"@ + commit,
        !is_git(repo + query + "#"@ + commit),
        forall|i: int| 0 <= i < repo.len() ==> #[trigger] repo[i] != '?' && repo[i] != '#',
        forall|i: int| 0 <= i < commit.len() ==> #[trigger] commit[i] != '#',
        query.len() > 0 ==> query[0] == '?',
    ensures
        entry_identity(version, Some(source)) == version + " ("@ + repo + " "@ + pin(source) + " @ "@
            + commit.take(
            if commit.len() < 7 {
                commit.len() as int
            } else {
                7
            },
        ) + ")"@,
{
    reveal_strlit("git+");
    reveal_strlit("#");
    let r = repo.len() as int;
    let body = repo + query + "#"@ + commit;
    assert(source.take(4) =~= "git+"@);
    assert(source.skip(4) =~= body);
    assert(without_git(source) == body) by {
        reveal_with_fuel(without_git, 2);
    }
    assert(body[r] == if query.len() > 0 {
        '?'
    } else {
        '#'
    });
    assert forall|i: int| 0 <= i < r implies #[trigger] body[i] != '?' && body[i] != '#' by {
        assert(body[i] == repo[i]);
    }
    cut_place_is(body, '?', '#', 0, r);
    assert(body.take(r) =~= repo);
    let hash = 4 + r + query.len();
    assert(source[hash] == '#');
    assert forall|i: int| hash < i < source.len() implies #[trigger] source[i] != '#' by {
        assert(source[i] == commit[i - hash - 1]);
    }
    last_place_is(source, '#', hash, source.len() as int);
    assert(short_commit(source) =~= commit.take(
        if commit.len() < 7 {
            commit.len() as int
        } else {
            7
        },
    ));
}

proof fn pin_is_read(
    source: Seq<char>,
    front: Seq<char>,
    key: Seq<char>,
    value: Seq<char>,
    commit: Seq<char>,
)
    requires
        source == front + key + value + "#"@ + commit,
        key.len() > 0,
        forall|i: int| 0 <= i < value.len() ==> #[trigger] value[i] != '#',
        forall|i: int| #[trigger] occurs_at(source, key, i) ==> i == front.len(),
    ensures
        pinned_by(source, key) == Some(key + value),
{
    reveal_strlit("#");
    let at = front.len() as int;
    let k = key.len() as int;
    let n = value.len() as int;
    assert(source.subrange(at, at + k) =~= key);
    assert(occurs_at(source, key, at));
    find_is(source, key, 0, Some(at));
    find_is(source, key, at + k, None);
    let rest = source.subrange(at + k, source.len() as int);
    assert(rest[n] == '#');
    assert forall|i: int| 0 <= i < n implies #[trigger] rest[i] != '#' by {
        assert(rest[i] == value[i]);
    }
    cut_place_is(rest, '#', '#', 0, n);
    assert(rest.take(n) =~= value);
}

/// An engine from a git repository is named after its version, the repository,
/// the tag, branch or revision that was asked for, in this order of preference,
/// and the first seven characters of the commit that it was locked to.
pub proof fn pinned_engine_is_named(
    parts: LockParts,
    version: Seq<char>,
    repo: Seq<char>,
    key: Seq<char>,
    value: Seq<char>,
    commit: Seq<char>,
    source: Seq<char>,
    lock: &str,
    identity: String,
)
    requires
        lock@ == parts.text(),
        parts.describe("dxpdf"@, version, Some(source)),
        source == "git+"@ + repo + "?"@ + key + value + "#"@ + commit,
        key == "tag="@ || key == "branch="@ || key == "rev="@,
        !is_git(source.skip(4)),
        forall|i: int| 0 <= i < repo.len() ==> #[trigger] repo[i] != '?' && repo[i] != '#',
        forall|i: int| 0 <= i < value.len() ==> #[trigger] value[i] != '#',
        forall|i: int| 0 <= i < commit.len() ==> #[trigger] commit[i] != '#',
        commit.len() >= 7,
        forall|i: int| #[trigger] occurs_at(source, key, i) ==> i == 5 + repo.len(),
        key != "tag="@ ==> forall|i: int| !#[trigger] occurs_at(source, "tag="@, i),
        key == "rev="@ ==> forall|i: int| !#[trigger] occurs_at(source, "branch="@, i),
        call_ensures(engine_identity, (Some(lock),), identity),
    ensures
        identity@ == version + " ("@ + repo + " "@ + (key + value) + " @ "@ + commit.take(7) + ")"@,
{
    reveal_strlit("git+");
    reveal_strlit("?");
    reveal_strlit("tag=");
    reveal_strlit("branch=");
    reveal_strlit("rev=");
    entry_is_read(parts, "dxpdf"@, version, Some(source));
    let query = "?"@ + key + value;
    assert(source =~= "git+"@ + repo + query + "#"@ + commit);
    assert(source.skip(4) =~= repo + query + "#"@ + commit);
    assert(query[0] == '?');
    git_engine_is_described(version, repo, query, commit, source);
    pin_is_read(source, "git+"@ + repo + "?"@, key, value, commit);
    assert("tag="@[0] == 't' && "branch="@[0] == 'b' && "rev="@[0] == 'r');
    if key != "tag="@ {
        find_is(source, "tag="@, 0, None);
    }
    if key == "rev="@ {
        find_is(source, "branch="@, 0, None);
    }
    assert(pin(source) == key + value);
}

/// An engine from a git repository without a tag, a branch or a revision is
/// named after the default branch.
pub proof fn unpinned_engine_is_named(
    parts: LockParts,
    version: Seq<char>,
    repo: Seq<char>,
    commit: Seq<char>,
    source: Seq<char>,
    lock: &str,
    identity: String,
)
    requires
        lock@ == parts.text(),
        parts.describe("dxpdf"@, version, Some(source)),
        source == "git+"@ + repo + "#"@ + commit,
        !is_git(source.skip(4)),
        forall|i: int| 0 <= i < repo.len() ==> #[trigger] repo[i] != '?' && repo[i] != '#',
        forall|i: int| 0 <= i < commit.len() ==> #[trigger] commit[i] != '#',
        commit.len() >= 7,
        forall|i: int|
            !#[trigger] occurs_at(source, "tag="@, i) && !occurs_at(source, "branch="@, i)
                && !occurs_at(source, "rev="@, i),
        call_ensures(engine_identity, (Some(lock),), identity),
    ensures
        identity@ == version + " ("@ + repo + " "@ + "default branch"@ + " @ "@ + commit.take(7)
            + ")"@,
{
    reveal_strlit("git+");
    entry_is_read(parts, "dxpdf"@, version, Some(source));
    let query = Seq::<char>::empty();
    assert(source =~= "git+"@ + repo + query + "#"@ + commit);
    assert(source.skip(4) =~= repo + query + "#"@ + commit);
    git_engine_is_described(version, repo, query, commit, source);
    assert forall|i: int| !#[trigger] occurs_at(source, "branch="@, i) by {
        assert(!occurs_at(source, "tag="@, i));
    }
    assert forall|i: int| !#[trigger] occurs_at(source, "rev="@, i) by {
        assert(!occurs_at(source, "tag="@, i));
    }
    find_is(source, "tag="@, 0, None);
    find_is(source, "branch="@, 0, None);
    find_is(source, "rev="@, 0, None);
}

/// An engine from elsewhere is named after its version and its source as it
/// stands; one without a source is a local checkout, and no pinned build.
pub proof fn other_engines_are_named(
    parts: LockParts,
    version: Seq<char>,
    source: Option<Seq<char>>,
    lock: &str,
    identity: String,
)
    requires
        lock@ == parts.text(),
        parts.describe("dxpdf"@, version, source),
        source matches Some(source) ==> source.len() < 4 || source.take(4) != "git+"@,
        call_ensures(engine_identity, (Some(lock),), identity),
    ensures
        source matches Some(source) ==> identity@ == version + " ("@ + source + ")"@,
        source is None ==> identity@ == version + " (local path checkout — not a pinned build)"@,
{
    entry_is_read(parts, "dxpdf"@, version, source);
}

/// Without a lock file, and without the engine in it, the engine is unknown.
pub proof fn unknown_engine_is_called_so(lock: &str, without_lock: String, without_entry: String)
    requires
        call_ensures(engine_identity, (None,), without_lock),
        call_ensures(engine_identity, (Some(lock),), without_entry),
        forall|i: int| #[trigger] starts_line(lock@, i) ==> line(lock@, i) != "name = \"dxpdf\""@,
    ensures
        without_lock@ == "unknown (no Cargo.lock at build time)"@,
        without_entry@ == "unknown (dxpdf not in Cargo.lock)"@,
{
    reveal_strlit("name = \"");
    reveal_strlit("dxpdf");
    reveal_strlit("\"");
    reveal_strlit("name = \"dxpdf\"");
    assert("name = \""@ + "dxpdf"@ + "\""@ =~= "name = \"dxpdf\""@);
    behind_line_is_none(lock@, "name = \""@ + "dxpdf"@ + "\""@, 0);
}

/// The build is named after both versions, wherever it is named.
pub proof fn build_is_named(
    version: &str,
    engine: &str,
    text: String,
    banner: String,
    strings: Vec<(&'static str, String)>,
)
    requires
        call_ensures(version_text, (version, engine), text),
        call_ensures(start_banner, (version, engine), banner),
        call_ensures(version_resource, (engine,), strings),
    ensures
        text@ == "dxpdf-service "@ + version@ + " (engine: dxpdf "@ + engine@ + ")"@,
        banner@ == "dxpdf-service "@ + version@ + " starting (engine: dxpdf "@ + engine@ + ")"@,
        strings@.len() == 6,
        strings@[0].0@ == "ProductName"@ && strings@[0].1@ == "dxpdf-service"@,
        strings@[1].0@ == "FileDescription"@ && strings@[1].1@
            == "dxpdf DOCX to PDF conversion service (HTTP)"@,
        strings@[2].0@ == "OriginalFilename"@ && strings@[2].1@ == "dxpdf-service.exe"@,
        strings@[3].0@ == "InternalName"@ && strings@[3].1@ == "dxpdf-service"@,
        strings@[4].0@ == "LegalCopyright"@ && strings@[4].1@ == "MIT licensed"@,
        strings@[5].0@ == "Comments"@ && strings@[5].1@ == "engine: dxpdf "@ + engine@,
{
    assert(strings@[0] == strings@[0] && strings@[1] == strings@[1] && strings@[2] == strings@[2]);
    assert(strings@[3] == strings@[3] && strings@[4] == strings@[4] && strings@[5] == strings@[5]);
}

/// The entry of a package starts behind the first line that names it and goes on
/// to a blank line, the next header or the end. It has the version and the source
/// of the last lines in it that state one, and counts only with a version.
pub proof fn entry_is_read_line_by_line(
    lock: &str,
    package: &str,
    at: int,
    next: int,
    version_at: Option<int>,
    source_at: Option<int>,
    entry: Option<(String, Option<String>)>,
)
    requires
        call_ensures(lock_entry, (lock, package), entry),
        starts_line(lock@, at),
        line(lock@, at) == "name = \""@ + package@ + "\""@,
        forall|i: int|
            0 <= i < at && #[trigger] starts_line(lock@, i) ==> line(lock@, i) != "name = \""@
                + package@ + "\""@,
        at < next <= lock@.len(),
        lock@[next - 1] == '\n',
        forall|i: int| at <= i < next - 1 ==> #[trigger] lock@[i] != '\n',
        version_at matches Some(place) ==> in_entry(lock@, next, place) && occurs_at(
            line(lock@, place),
            "version = "@,
            0,
        ),
        forall|i: int|
            (version_at matches Some(place) ==> place < i) && #[trigger] in_entry(lock@, next, i)
                ==> !occurs_at(line(lock@, i), "version = "@, 0),
        source_at matches Some(place) ==> in_entry(lock@, next, place) && occurs_at(
            line(lock@, place),
            "source = "@,
            0,
        ),
        forall|i: int|
            (source_at matches Some(place) ==> place < i) && #[trigger] in_entry(lock@, next, i)
                ==> !occurs_at(line(lock@, i), "source = "@, 0),
    ensures
        entry is Some <==> version_at is Some,
        entry matches Some((version, source)) ==> {
            &&& version@ == trim(line(lock@, version_at->0).skip(10), Margin::Quotes)
            &&& source is Some <==> source_at is Some
            &&& source matches Some(source) ==> source@ == trim(
                line(lock@, source_at->0).skip(9),
                Margin::Quotes,
            )
        },
{
    reveal_strlit("version = ");
    reveal_strlit("source = ");
    let s = lock@;
    lines_end_at_newlines(s, at, next - 1);
    assert(starts_line(s, 0));
    behind_line_is(s, "name = \""@ + package@ + "\""@, 0, at);
    entry_value_is_the_last(s, "version = "@, next, None, version_at);
    entry_value_is_the_last(s, "source = "@, next, None, source_at);
}

/// What is all margin trims to nothing.
pub proof fn all_margin_trims_to_nothing(s: Seq<char>, margin: Margin)
    requires
        forall|i: int| 0 <= i < s.len() ==> in_margin(margin, #[trigger] s[i]),
    ensures
        trim(s, margin).len() == 0,
{
    let nothing = Seq::<char>::empty();
    trim_start_is(s, nothing, margin);
    assert(s + nothing =~= s);
}

/// A line that names a package but is the last, and unfinished, has no entry.
pub proof fn unfinished_name_has_no_entry(
    lock: &str,
    package: &str,
    at: int,
    entry: Option<(String, Option<String>)>,
)
    requires
        call_ensures(lock_entry, (lock, package), entry),
        starts_line(lock@, at),
        line(lock@, at) == "name = \""@ + package@ + "\""@,
        forall|i: int|
            0 <= i < at && #[trigger] starts_line(lock@, i) ==> line(lock@, i) != "name = \""@
                + package@ + "\""@,
        forall|i: int| at <= i < lock@.len() ==> #[trigger] lock@[i] != '\n',
    ensures
        entry is None,
{
    let s = lock@;
    lines_end_at_newlines(s, at, s.len() as int);
    assert(starts_line(s, 0));
    behind_line_is(s, "name = \""@ + package@ + "\""@, 0, at);
}

/// The engine is named after what its entry says, and after nothing else: the
/// version, and for a git source the repository, what pins it and the commit.
pub proof fn engine_is_named_after_its_entry(
    lock: &str,
    package: &str,
    entry: Option<(String, Option<String>)>,
    identity: String,
)
    requires
        package@ == "dxpdf"@,
        call_ensures(lock_entry, (lock, package), entry),
        call_ensures(engine_identity, (Some(lock),), identity),
    ensures
        entry is None ==> identity@ == "unknown (dxpdf not in Cargo.lock)"@,
        entry matches Some((version, source)) ==> {
            &&& source is None ==> identity@ == version@
                + " (local path checkout — not a pinned build)"@
            &&& source matches Some(source) ==> if source@.len() >= 4 && source@.take(4) == "git+"@ {
                identity@ == version@ + " ("@ + repository(source@) + " "@ + pin(source@) + " @ "@
                    + short_commit(source@) + ")"@
            } else {
                identity@ == version@ + " ("@ + source@ + ")"@
            }
        },
{
}

/// The commit of a source is what stands behind its last `#`, cut to seven
/// characters; without a `#` there is none.
pub proof fn commit_stands_behind_the_last_hash(front: Seq<char>, commit: Seq<char>)
    requires
        forall|i: int| 0 <= i < commit.len() ==> #[trigger] commit[i] != '#',
    ensures
        commit.len() <= 7 ==> short_commit(front + "#"@ + commit) == commit,
        commit.len() > 7 ==> short_commit(front + "#"@ + commit) == commit.take(7),
        short_commit(commit).len() == 0,
{
    reveal_strlit("#");
    let source = front + "#"@ + commit;
    let hash = front.len() as int;
    assert(source[hash] == '#');
    assert forall|i: int| hash < i < source.len() implies #[trigger] source[i] != '#' by {
        assert(source[i] == commit[i - hash - 1]);
    }
    last_place_is(source, '#', hash, source.len() as int);
    assert(source.skip(hash + 1) =~= commit);
    if commit.len() >= 7 {
        assert(source.subrange(hash + 1, hash + 8) =~= commit.take(7));
        assert(commit.len() == 7 ==> commit.take(7) =~= commit);
    }
    no_last_place(commit, '#', commit.len() as int);
}

proof fn no_last_place(s: Seq<char>, c: char, to: int)
    requires
        to <= s.len(),
        forall|i: int| 0 <= i < to ==> #[trigger] s[i] != c,
    ensures
        last_place(s, c, to) is None,
    decreases to,
{
    if to > 0 {
        assert(s[to - 1] != c);
        no_last_place(s, c, to - 1);
    }
}

/// The repository of a git source stands between its marks, however many, and
/// its query or commit.
pub proof fn repository_stands_in_front(source: Seq<char>, repo: Seq<char>, tail: Seq<char>)
    requires
        forall|i: int| 0 <= i < repo.len() ==> #[trigger] repo[i] != '?' && repo[i] != '#',
        tail.len() > 0 ==> tail[0] == '?' || tail[0] == '#',
    ensures
        repo.len() + tail.len() < 4 || (repo + tail).take(4) != "git+"@ ==> repository(repo + tail)
            == repo,
        repository("git+"@ + source) == repository(source),
{
    reveal_strlit("git+");
    let s = repo + tail;
    let r = repo.len() as int;
    assert forall|i: int| 0 <= i < r implies #[trigger] s[i] != '?' && s[i] != '#' by {
        assert(s[i] == repo[i]);
    }
    cut_place_is(s, '?', '#', 0, r);
    assert(s.take(r) =~= repo);
    let marked = "git+"@ + source;
    assert(marked.take(4) =~= "git+"@);
    assert(marked.skip(4) =~= source);
}

proof fn find_facts(s: Seq<char>, part: Seq<char>, from: int)
    requires
        0 <= from,
    ensures
        find(s, part, from) matches Some(at) ==> {
            &&& from <= at
            &&& occurs_at(s, part, at)
            &&& forall|i: int| from <= i < at ==> !#[trigger] occurs_at(s, part, i)
        },
        find(s, part, from) is None ==> forall|i: int|
            from <= i ==> !#[trigger] occurs_at(s, part, i),
    decreases s.len() + 1 - from,
{
    if from + part.len() <= s.len() && !occurs_at(s, part, from) {
        find_facts(s, part, from + 1);
        assert forall|i: int|
            from <= i && (find(s, part, from) matches Some(at) ==> i < at) implies !#[trigger] occurs_at(
            s,
            part,
            i,
        ) by {
            if i > from {
                assert(from + 1 <= i);
            }
        }
    }
}

/// What a key pins is what stands behind its first place, up to a `#`, the key's
/// next place or the end.
pub proof fn pin_stands_behind_its_key(source: Seq<char>, key: Seq<char>, at: int, end: int)
    requires
        key.len() > 0,
        occurs_at(source, key, at),
        forall|i: int| 0 <= i < at ==> !#[trigger] occurs_at(source, key, i),
        at + key.len() <= end <= source.len(),
        forall|i: int| at + key.len() <= i < end ==> #[trigger] source[i] != '#',
        forall|i: int| at + key.len() <= i < end ==> !#[trigger] occurs_at(source, key, i),
        end < source.len() ==> source[end] == '#' || occurs_at(source, key, end),
    ensures
        pinned_by(source, key) == Some(key + source.subrange(at + key.len(), end)),
{
    find_is(source, key, 0, Some(at));
    let start = at + key.len();
    find_facts(source, key, start);
    let stop = match find(source, key, start) {
        Some(again) => again,
        None => source.len() as int,
    };
    assert(end <= stop) by {
        if stop < end {
            assert(occurs_at(source, key, stop));
        }
    }
    let rest = source.subrange(start, stop);
    assert forall|i: int| 0 <= i < end - start implies #[trigger] rest[i] != '#' by {
        assert(rest[i] == source[start + i]);
    }
    if end < stop {
        assert(rest[end - start] == source[end]);
    }
    cut_place_is(rest, '#', '#', 0, end - start);
    assert(rest.take(end - start) =~= source.subrange(start, end));
}

/// A tag pins a source before a branch does, and a branch before a revision;
/// without any it is the default branch.
pub proof fn tags_pin_before_branches(source: Seq<char>)
    ensures
        (exists|i: int| occurs_at(source, "tag="@, i)) ==> pinned_by(source, "tag="@) == Some(
            pin(source),
        ),
        !(exists|i: int| occurs_at(source, "tag="@, i)) && (exists|i: int|
            occurs_at(source, "branch="@, i)) ==> pinned_by(source, "branch="@) == Some(pin(source)),
        !(exists|i: int| occurs_at(source, "tag="@, i)) && !(exists|i: int|
            occurs_at(source, "branch="@, i)) && (exists|i: int| occurs_at(source, "rev="@, i))
            ==> pinned_by(source, "rev="@) == Some(pin(source)),
        !(exists|i: int| occurs_at(source, "tag="@, i)) && !(exists|i: int|
            occurs_at(source, "branch="@, i)) && !(exists|i: int| occurs_at(source, "rev="@, i))
            ==> pin(source) == "default branch"@,
{
    find_facts(source, "tag="@, 0);
    find_facts(source, "branch="@, 0);
    find_facts(source, "rev="@, 0);
}

/// A part occurs exactly where the text around it, with the part in between, makes
/// up the whole.
pub proof fn parts_occur_where_they_stand(s: Seq<char>, part: Seq<char>, at: int)
    ensures
        occurs_at(s, part, at) <==> exists|front: Seq<char>, back: Seq<char>|
            #![trigger front + part + back]
            front.len() == at && s == front + part + back,
{
    if occurs_at(s, part, at) {
        let front = s.take(at);
        let back = s.skip(at + part.len());
        assert(s =~= front + part + back);
    }
    if exists|front: Seq<char>, back: Seq<char>|
        #![trigger front + part + back]
        front.len() == at && s == front + part + back {
        let (front, back) = choose|front: Seq<char>, back: Seq<char>|
            #![trigger front + part + back]
            front.len() == at && s == front + part + back;
        assert(s.subrange(at, at + part.len()) =~= part);
    }
}

} // verus!
