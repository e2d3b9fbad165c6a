use crate::error::{Error, ErrorKind, SearchResult};
use grep::matcher::Matcher;
use grep::regex::Error as RegexError;
use grep::regex::RegexMatcher;
use vstd::prelude::*;
use vstd::seq_lib::{group_to_multiset_ensures, lemma_multiset_commutative};
use vstd::slice::slice_subrange;

verus! {

/// grep's compiled regular expression, read-only once built.
#[verifier::external_type_specification]
#[verifier::external_body]
pub struct ExRegexMatcher(RegexMatcher);

/// Whether grep's regex matcher accepts `pattern` as a regular expression.
pub uninterp spec fn compiles(pattern: Seq<char>) -> bool;

/// The byte range of the leftmost-first match of `pattern` in `haystack`.
pub uninterp spec fn first_match(pattern: Seq<char>, haystack: Seq<u8>) -> Option<(int, int)>;

/// The text that `bytes` encode, when they are valid UTF-8.
pub uninterp spec fn utf8_text(bytes: Seq<u8>) -> Option<Seq<char>>;

/// Relies on grep_regex::RegexMatcher::new: a matcher for `pattern` with the
/// default configuration, or the syntax error that stops it.
#[verifier::external_body]
fn compile(pattern: &str) -> (r: Result<RegexMatcher, RegexError>)
    ensures
        r is Ok == compiles(pattern@),
{
    RegexMatcher::new(pattern)
}

/// Relies on std::str::from_utf8: the text of `bytes` when they are valid UTF-8.
#[verifier::external_body]
fn decode(bytes: &[u8]) -> (r: Option<String>)
    ensures
        match r {
            Some(s) => utf8_text(bytes@) == Some(s@),
            None => utf8_text(bytes@) is None,
        },
{
    std::str::from_utf8(bytes).ok().map(|s| s.to_owned())
}

/// A compiled regular expression, together with the text it was compiled from.
pub struct Pattern {
    source: String,
    matcher: RegexMatcher,
}

impl View for Pattern {
    type V = Seq<char>;

    /// The text of the regular expression.
    closed spec fn view(&self) -> Seq<char> {
        self.source@
    }
}

impl Pattern {
    /// Compile `pattern`; fails with a pattern error exactly when the regex
    /// engine rejects it.
    pub fn new(pattern: &str) -> (r: SearchResult<Pattern>)
        ensures
            match r {
                Ok(p) => compiles(pattern@) && p@ == pattern@,
                Err(e) => !compiles(pattern@) && e.is_pattern_spec(),
            },
    {
        match compile(pattern) {
            Ok(matcher) => Ok(Pattern { source: pattern.to_owned(), matcher }),
            Err(err) => Err(Error::new(ErrorKind::GrepRegexErr(err))),
        }
    }
}

/// Relies on grep_matcher::Matcher::find of grep_regex::RegexMatcher: the
/// start and end of the leftmost-first match of the matcher's pattern in
/// `haystack`, a range inside `haystack`.
#[verifier::external_body]
fn find_first(pattern: &Pattern, haystack: &[u8]) -> (r: Option<(usize, usize)>)
    ensures
        match r {
            Some((s, e)) => first_match(pattern@, haystack@) == Some((s as int, e as int)) && s
                <= e <= haystack@.len(),
            None => first_match(pattern@, haystack@) is None,
        },
{
    match pattern.matcher.find(haystack) {
        Ok(Some(m)) => Some((m.start(), m.end())),
        _ => None,
    }
}

/// A match in a file: the line number (from 1) and the matched text.
pub struct SearchMatch {
    line: u64,
    match_result: String,
}

impl View for SearchMatch {
    type V = (int, Seq<char>);

    closed spec fn view(&self) -> (int, Seq<char>) {
        (self.line as int, self.match_result@)
    }
}

impl SearchMatch {
    fn new(line: u64, match_result: String) -> (r: SearchMatch)
        ensures
            r@ == (line as int, match_result@),
    {
        SearchMatch { line, match_result }
    }

    /// The line number of the match, counted from 1.
    pub fn line(&self) -> (r: u64)
        ensures
            r as int == self@.0,
    {
        self.line
    }

    /// The matched text.
    pub fn match_result(&self) -> (r: &String)
        ensures
            r@ == self@.1,
    {
        &self.match_result
    }
}

/// The views of a sequence of matches.
pub open spec fn match_views(ms: Seq<SearchMatch>) -> Seq<(int, Seq<char>)> {
    ms.map_values(|m: SearchMatch| m@)
}

/// A line without the carriage return that may end it.
pub open spec fn strip_cr(line: Seq<u8>) -> Seq<u8> {
    if line.len() > 0 && line.last() == 13u8 {
        line.drop_last()
    } else {
        line
    }
}

/// The matched text of a line, if the line is valid text and the pattern
/// matches it; only the first match counts.
pub open spec fn line_hit(pattern: Seq<char>, line: Seq<u8>) -> Option<Seq<char>> {
    let l = strip_cr(line);
    if utf8_text(l) is None {
        None
    } else {
        match first_match(pattern, l) {
            Some((s, e)) => if 0 <= s <= e <= l.len() {
                utf8_text(l.subrange(s, e))
            } else {
                None
            },
            None => None,
        }
    }
}

/// The lines ended by `\n` in `b`, and what follows the last `\n`.
pub open spec fn split_terminated(b: Seq<u8>) -> (Seq<Seq<u8>>, Seq<u8>)
    decreases b.len(),
{
    if b.len() == 0 {
        (seq![], seq![])
    } else {
        let (ls, cur) = split_terminated(b.drop_last());
        if b.last() == 10u8 {
            (ls.push(cur), seq![])
        } else {
            (ls, cur.push(b.last()))
        }
    }
}

/// The lines of a stream: each `\n` ends one, and a non-empty tail after the
/// last `\n` is one more.
pub open spec fn lines(b: Seq<u8>) -> Seq<Seq<u8>> {
    let (ls, cur) = split_terminated(b);
    if cur.len() > 0 {
        ls.push(cur)
    } else {
        ls
    }
}

/// The matches of `pattern` in the lines `ls`, numbered from 1.
pub open spec fn scan_lines(pattern: Seq<char>, ls: Seq<Seq<u8>>) -> Seq<(int, Seq<char>)>
    decreases ls.len(),
{
    if ls.len() == 0 {
        seq![]
    } else {
        let prev = scan_lines(pattern, ls.drop_last());
        match line_hit(pattern, ls.last()) {
            Some(t) => prev.push((ls.len() as int, t)),
            None => prev,
        }
    }
}

/// The matches of `pattern` in the stream `b`.
pub open spec fn scan_spec(pattern: Seq<char>, b: Seq<u8>) -> Seq<(int, Seq<char>)> {
    scan_lines(pattern, lines(b))
}

/// What one line adds to the matches.
pub open spec fn hit_entry(pattern: Seq<char>, line: Seq<u8>, number: int) -> Seq<(int, Seq<char>)> {
    match line_hit(pattern, line) {
        Some(t) => seq![(number, t)],
        None => seq![],
    }
}

/// Test one line and append its match, if any.
fn scan_line(line: &[u8], number: u64, pattern: &Pattern, matches: &mut Vec<SearchMatch>)
    ensures
        match_views(final(matches)@) == match_views(old(matches)@) + hit_entry(
            pattern@,
            line@,
            number as int,
        ),
{
    let ghost before = match_views(matches@);
    let mut end: usize = line.len();
    if end > 0 && line[end - 1] == 13u8 {
        end = end - 1;
    }
    let l = slice_subrange(line, 0, end);
    assert(l@ == strip_cr(line@));
    let text = decode(l);
    if text.is_none() {
        assert(match_views(matches@) =~= before + hit_entry(pattern@, line@, number as int));
        return;
    }
    match find_first(pattern, l) {
        Some((s, e)) => {
            match decode(slice_subrange(l, s, e)) {
                Some(t) => {
                    let m = SearchMatch::new(number, t);
                    matches.push(m);
                    assert(match_views(matches@) =~= before + hit_entry(
                        pattern@,
                        line@,
                        number as int,
                    ));
                },
                None => {
                    assert(match_views(matches@) =~= before + hit_entry(
                        pattern@,
                        line@,
                        number as int,
                    ));
                },
            }
        },
        None => {
            assert(match_views(matches@) =~= before + hit_entry(pattern@, line@, number as int));
        },
    }
}

/// Split `bytes` into lines and collect, in line order, the first match of
/// `pattern` on each line.
pub fn scan(bytes: &[u8], pattern: &Pattern) -> (r: Vec<SearchMatch>)
    ensures
        match_views(r@) == scan_spec(pattern@, bytes@),
{
    let mut matches: Vec<SearchMatch> = Vec::new();
    let mut start: usize = 0;
    let mut count: u64 = 0;
    let mut i: usize = 0;
    while i < bytes.len()
        invariant
            start <= i <= bytes.len(),
            split_terminated(bytes@.take(i as int)).1 == bytes@.subrange(start as int, i as int),
            split_terminated(bytes@.take(i as int)).0.len() == count,
            count <= start,
            match_views(matches@) == scan_lines(pattern@, split_terminated(bytes@.take(i as int)).0),
        decreases bytes.len() - i,
    {
        let ghost prev = split_terminated(bytes@.take(i as int));
        assert(bytes@.take(i + 1).drop_last() =~= bytes@.take(i as int));
        if bytes[i] == 10u8 {
            count = count + 1;
            let line = slice_subrange(bytes, start, i);
            scan_line(line, count, pattern, &mut matches);
            start = i + 1;
            proof {
                let next = split_terminated(bytes@.take(i + 1));
                assert(next.0 == prev.0.push(prev.1));
                assert(next.0.drop_last() =~= prev.0);
                assert(bytes@.subrange(start as int, i + 1) =~= seq![]);
            }
        } else {
            proof {
                assert(bytes@.subrange(start as int, i + 1) =~= prev.1.push(bytes[i as int]));
            }
        }
        i = i + 1;
    }
    assert(bytes@.take(i as int) =~= bytes@);
    if start < bytes.len() {
        let ghost prev = split_terminated(bytes@);
        count = count + 1;
        let line = slice_subrange(bytes, start, bytes.len());
        scan_line(line, count, pattern, &mut matches);
        assert(lines(bytes@).drop_last() =~= prev.0);
    }
    matches
}

/// Search an in-memory stream for `search_regex`: a pattern error when the
/// expression does not compile, else the matches of `scan`.
pub fn search_single_file(file: &[u8], search_regex: &str) -> (r: SearchResult<Vec<SearchMatch>>)
    ensures
        match r {
            Ok(ms) => compiles(search_regex@) && match_views(ms@) == scan_spec(search_regex@, file@),
            Err(e) => !compiles(search_regex@) && e.is_pattern_spec(),
        },
{
    let pattern = Pattern::new(search_regex)?;
    Ok(scan(file, &pattern))
}

/// Scan what was read from one path: the I/O error when the read failed,
/// else the matches of `scan` on the bytes read.
pub fn scan_read(read: Result<Vec<u8>, std::io::Error>, pattern: &Pattern) -> (r: SearchResult<
    Vec<SearchMatch>,
>)
    ensures
        match read {
            Ok(b) => r matches Ok(ms) && match_views(ms@) == scan_spec(pattern@, b@),
            Err(e) => r matches Err(err) && err.spec_kind() == ErrorKind::IoErr(e),
        },
{
    match read {
        Ok(b) => Ok(scan(b.as_slice(), pattern)),
        Err(e) => Err(Error::new(ErrorKind::IoErr(e))),
    }
}

/// Whether a directory walk skips hidden entries: it does unless `hidden`
/// is `Some(false)`.
pub fn skip_hidden(hidden: Option<bool>) -> (r: bool)
    ensures
        r == (hidden != Some(false)),
{
    match hidden {
        Some(false) => false,
        _ => true,
    }
}

/// A match paired with the path of its file, as views.
pub type FileMatchView = ((int, Seq<char>), Seq<char>);

/// The views of a sequence of matches with their paths.
pub open spec fn pair_views(s: Seq<(SearchMatch, String)>) -> Seq<FileMatchView> {
    s.map_values(|p: (SearchMatch, String)| (p.0@, p.1@))
}

/// What one file adds to a directory search: its matches, each with the
/// file's path, when the path is text and the file was scanned; else nothing.
pub open spec fn contribution(path: Option<Seq<char>>, found: Option<Seq<(int, Seq<char>)>>) -> Seq<
    FileMatchView,
> {
    match (path, found) {
        (Some(p), Some(ms)) => ms.map_values(|m: (int, Seq<char>)| (m, p)),
        _ => seq![],
    }
}

/// The view of a path that may not be text.
pub open spec fn path_view(path: Option<String>) -> Option<Seq<char>> {
    match path {
        Some(p) => Some(p@),
        None => None,
    }
}

/// The view of the outcome of scanning one file: its matches, or none when it failed.
pub open spec fn outcome_view(outcome: SearchResult<Vec<SearchMatch>>) -> Option<Seq<(int, Seq<char>)>> {
    match outcome {
        Ok(ms) => Some(match_views(ms@)),
        Err(_) => None,
    }
}

/// Add the outcome of one file to the results of a directory search. A file
/// that failed adds nothing and fails nothing else.
pub fn record_file(
    results: &mut Vec<(SearchMatch, String)>,
    path: Option<String>,
    outcome: SearchResult<Vec<SearchMatch>>,
)
    ensures
        pair_views(final(results)@) == pair_views(old(results)@) + contribution(
            path_view(path),
            outcome_view(outcome),
        ),
{
    let ghost before = pair_views(results@);
    match (path, outcome) {
        (Some(p), Ok(ms)) => {
            let ghost added = contribution(path_view(Some(p)), Some(match_views(ms@)));
            let mut i: usize = 0;
            while i < ms.len()
                invariant
                    i <= ms.len(),
                    added == match_views(ms@).map_values(|m: (int, Seq<char>)| (m, p@)),
                    pair_views(results@) =~= before + added.take(i as int),
                decreases ms.len() - i,
            {
                let m = &ms[i];
                let copy = SearchMatch::new(m.line, m.match_result.clone());
                let path_copy = p.clone();
                assert(copy@ == ms@[i as int]@);
                assert(added[i as int] == (copy@, path_copy@));
                let ghost r0 = results@;
                let ghost entry = (copy@, path_copy@);
                results.push((copy, path_copy));
                assert(pair_views(results@) =~= pair_views(r0).push(entry));
                assert(added.take(i + 1) =~= added.take(i as int).push(added[i as int]));
                assert(pair_views(results@) =~= before + added.take(i + 1));
                i = i + 1;
            }
            assert(added.take(i as int) =~= added);
        },
        _ => {
            assert(pair_views(results@) =~= before + contribution(path_view(path), outcome_view(outcome)));
        },
    }
}

/// The matches of `scan_lines` stand on lines that the pattern hits, in
/// strictly ascending line order, and every hit line has its match.
proof fn lemma_scan_lines(pattern: Seq<char>, ls: Seq<Seq<u8>>)
    ensures
        forall|k: int|
            0 <= k < scan_lines(pattern, ls).len() ==> 1 <= (#[trigger] scan_lines(pattern, ls)[k]).0
                <= ls.len() && line_hit(pattern, ls[scan_lines(pattern, ls)[k].0 - 1]) == Some(
                scan_lines(pattern, ls)[k].1,
            ),
        forall|i: int, j: int|
            0 <= i < j < scan_lines(pattern, ls).len() ==> (#[trigger] scan_lines(pattern, ls)[i]).0
                < (#[trigger] scan_lines(pattern, ls)[j]).0,
        forall|n: int|
            1 <= n <= ls.len() && (#[trigger] line_hit(pattern, ls[n - 1])) is Some ==> exists|k: int|
                0 <= k < scan_lines(pattern, ls).len() && (#[trigger] scan_lines(pattern, ls)[k]).0
                    == n,
    decreases ls.len(),
{
    if ls.len() > 0 {
        let init = ls.drop_last();
        lemma_scan_lines(pattern, init);
        let prev = scan_lines(pattern, init);
        let r = scan_lines(pattern, ls);
        assert forall|n: int|
            1 <= n <= ls.len() && (#[trigger] line_hit(pattern, ls[n - 1])) is Some implies exists|
                k: int,
            |
                0 <= k < r.len() && (#[trigger] r[k]).0 == n by {
            if n < ls.len() {
                assert(init[n - 1] == ls[n - 1]);
                assert(line_hit(pattern, init[n - 1]) is Some);
                let k = choose|k: int| 0 <= k < prev.len() && (#[trigger] prev[k]).0 == n;
                assert(r[k] == prev[k]);
            } else {
                assert(r[r.len() - 1].0 == n);
            }
        }
        assert forall|k: int| 0 <= k < prev.len() implies init[(#[trigger] prev[k]).0 - 1] == ls[prev[k].0
            - 1] by {}
    }
}

/// Within one stream, `scan` reports exactly the lines that match, each with
/// its line number counted from 1 and its matched text, in ascending order.
pub proof fn lemma_scan_line_numbers(pattern: Seq<char>, b: Seq<u8>)
    ensures
        forall|k: int|
            0 <= k < scan_spec(pattern, b).len() ==> 1 <= (#[trigger] scan_spec(pattern, b)[k]).0
                <= lines(b).len() && line_hit(pattern, lines(b)[scan_spec(pattern, b)[k].0 - 1])
                == Some(scan_spec(pattern, b)[k].1),
        forall|i: int, j: int|
            0 <= i < j < scan_spec(pattern, b).len() ==> (#[trigger] scan_spec(pattern, b)[i]).0
                < (#[trigger] scan_spec(pattern, b)[j]).0,
        forall|n: int|
            1 <= n <= lines(b).len() && (#[trigger] line_hit(pattern, lines(b)[n - 1])) is Some
                ==> exists|k: int|
                0 <= k < scan_spec(pattern, b).len() && (#[trigger] scan_spec(pattern, b)[k]).0 == n,
{
    lemma_scan_lines(pattern, lines(b));
}

/// For a stream whose lines are valid text, and whose first matches lie
/// inside their lines and are valid text, `scan` reports exactly the lines
/// on which the pattern matches somewhere, by line number, in ascending order.
pub proof fn lemma_scan_matching_lines(pattern: Seq<char>, b: Seq<u8>)
    requires
        forall|i: int| 0 <= i < lines(b).len() ==> (#[trigger] utf8_text(strip_cr(lines(b)[i])))
            is Some,
        forall|i: int|
            0 <= i < lines(b).len() ==> match #[trigger] first_match(pattern, strip_cr(lines(b)[i])) {
                Some((s, e)) => 0 <= s <= e <= strip_cr(lines(b)[i]).len() && utf8_text(
                    strip_cr(lines(b)[i]).subrange(s, e),
                ) is Some,
                None => true,
            },
    ensures
        forall|i: int, j: int|
            0 <= i < j < scan_spec(pattern, b).len() ==> (#[trigger] scan_spec(pattern, b)[i]).0
                < (#[trigger] scan_spec(pattern, b)[j]).0,
        forall|n: int|
            (exists|k: int|
                0 <= k < scan_spec(pattern, b).len() && (#[trigger] scan_spec(pattern, b)[k]).0 == n)
                <==> (1 <= n <= lines(b).len() && (#[trigger] first_match(
                pattern,
                strip_cr(lines(b)[n - 1]),
            )) is Some),
{
    lemma_scan_line_numbers(pattern, b);
    let r = scan_spec(pattern, b);
    let ls = lines(b);
    assert forall|n: int|
        (exists|k: int| 0 <= k < r.len() && (#[trigger] r[k]).0 == n) <==> (1 <= n <= ls.len()
            && (#[trigger] first_match(pattern, strip_cr(ls[n - 1]))) is Some) by {
        if exists|k: int| 0 <= k < r.len() && (#[trigger] r[k]).0 == n {
            let k = choose|k: int| 0 <= k < r.len() && (#[trigger] r[k]).0 == n;
            assert(line_hit(pattern, ls[r[k].0 - 1]) == Some(r[k].1));
        }
        if 1 <= n <= ls.len() && first_match(pattern, strip_cr(ls[n - 1])) is Some {
            assert(utf8_text(strip_cr(ls[n - 1])) is Some);
            assert(line_hit(pattern, ls[n - 1]) is Some);
        }
    }
}

/// A pattern that matches no line of a stream gives no matches, and no error.
pub proof fn lemma_no_occurrence(pattern: Seq<char>, b: Seq<u8>)
    requires
        forall|n: int|
            0 <= n < lines(b).len() ==> (#[trigger] first_match(pattern, strip_cr(lines(b)[n])))
                is None,
    ensures
        scan_spec(pattern, b) == Seq::<(int, Seq<char>)>::empty(),
{
    lemma_scan_lines(pattern, lines(b));
    let r = scan_spec(pattern, b);
    if r.len() > 0 {
        let n = r[0].0;
        assert(first_match(pattern, strip_cr(lines(b)[n - 1])) is None);
    }
    assert(r =~= Seq::<(int, Seq<char>)>::empty());
}

/// The outcome of one file of a directory search, as views: its path, if it
/// is text, and its matches, if it was scanned.
pub type FileOutcomeView = (Option<Seq<char>>, Option<Seq<(int, Seq<char>)>>);

/// The results of a directory search whose files were recorded in the order of `files`.
pub open spec fn gathered(files: Seq<FileOutcomeView>) -> Seq<FileMatchView>
    decreases files.len(),
{
    if files.len() == 0 {
        seq![]
    } else {
        gathered(files.drop_last()) + contribution(files.last().0, files.last().1)
    }
}

proof fn lemma_gathered_remove(b: Seq<FileOutcomeView>, j: int)
    requires
        0 <= j < b.len(),
    ensures
        gathered(b).to_multiset() =~= gathered(b.remove(j)).to_multiset().add(
            contribution(b[j].0, b[j].1).to_multiset(),
        ),
    decreases b.len(),
{
    let init = b.drop_last();
    let x = b.last();
    lemma_multiset_commutative(gathered(init), contribution(x.0, x.1));
    if j == b.len() - 1 {
        assert(b.remove(j) =~= init);
    } else {
        lemma_gathered_remove(init, j);
        let rest = b.remove(j);
        assert(rest.drop_last() =~= init.remove(j));
        assert(rest.last() == x);
        lemma_multiset_commutative(gathered(rest.drop_last()), contribution(x.0, x.1));
    }
}

/// The results of a directory search hold the same entries, counted with
/// multiplicity, whatever order the files were recorded in.
pub proof fn lemma_arrival_order(a: Seq<FileOutcomeView>, b: Seq<FileOutcomeView>)
    requires
        a.to_multiset() == b.to_multiset(),
    ensures
        gathered(a).to_multiset() == gathered(b).to_multiset(),
    decreases a.len(),
{
    broadcast use group_to_multiset_ensures;

    if a.len() == 0 {
        assert(a.to_multiset().len() == 0);
        assert(b.to_multiset().len() == b.len());
        assert(b =~= a);
    } else {
        let init = a.drop_last();
        let x = a.last();
        assert(a =~= init.push(x));
        assert(a.to_multiset().count(x) > 0);
        assert(b.contains(x));
        let j = choose|j: int| 0 <= j < b.len() && b[j] == x;
        assert(b.remove(j).to_multiset() =~= init.to_multiset());
        lemma_arrival_order(init, b.remove(j));
        lemma_gathered_remove(b, j);
        lemma_multiset_commutative(gathered(init), contribution(x.0, x.1));
    }
}

} // verus!
