//! Reading the report of `yarn why` for a JavaScript project.

use vstd::prelude::*;
use vstd::string::StrSliceExecFns;
use vstd::utf8::{decode_utf8, valid_utf8};

use crate::text::{
    chars_of, contains_text, copy_range, cr_to_lf, find_first, find_last, first_index,
    has_substring, is_unicode_whitespace, last_index, lemma_last_index_bounds, lemma_pieces_concat,
    lemma_pieces_cr_to_lf, lemma_trim_start_after_whitespace, law_pieces_one_line, lemma_first_index,
    lemma_last_index, lemma_trim_start_index, lemma_first_index_props, piece_bounds, pieces, range_is,
    skip_whitespace, trim_start,
};
use crate::version::{
    all_parse, first_unparsable, is_version_error, law_version_text_chars, is_version_range, is_version_text,
    semver_req_matches, semver_version_parses, PackageVersion, Requirement, VersionError,
};

verus! {

/// `=> Found "`, which opens each line of `yarn why` that names a package.
pub open spec fn found_marker() -> Seq<char> {
    seq!['=', '>', ' ', 'F', 'o', 'u', 'n', 'd', ' ', '"']
}

/// The package path and the version that a line of `yarn why` reports:
/// after leading white space the line reads `=> Found "PATH@VERSION"`, where
/// no `"` occurs between the quotes, `PATH` is not empty, the `@` is the last
/// one, and `VERSION` has the shape of a version.
pub open spec fn found_entry(line: Seq<char>) -> Option<(Seq<char>, Seq<char>)> {
    let t = trim_start(line);
    let n = found_marker().len() as int;
    if t.len() > n && t.take(n) == found_marker() && t.last() == '"' {
        let body = t.subrange(n, t.len() - 1);
        let at = last_index(body, '@');
        if first_index(body, '"') == body.len() && at > 0 && is_version_text(body.skip(at + 1)) {
            Some((body.take(at), body.skip(at + 1)))
        } else {
            None
        }
    } else {
        None
    }
}

/// Whether a package path such as `axios#form-data` is `package` itself, or
/// ends in it after its last `#`.
pub open spec fn names_package(path: Seq<char>, package: Seq<char>) -> bool {
    path == package || path.skip(last_index(path, '#') + 1) == package
}

/// The entries that `lines` report for `package`, in order.
pub open spec fn entries_for(lines: Seq<Seq<char>>, package: Seq<char>) -> Seq<(Seq<char>, Seq<char>)>
    decreases lines.len(),
{
    if lines.len() == 0 {
        Seq::empty()
    } else {
        let before = entries_for(lines.drop_last(), package);
        match found_entry(lines.last()) {
            Some(entry) => if names_package(entry.0, package) {
                before.push(entry)
            } else {
                before
            },
            None => before,
        }
    }
}

/// The `(package path, version)` entries of a `yarn why` report for
/// `package`, in order. Lines are cut at line feeds and at carriage returns.
pub open spec fn yarn_entries(report: Seq<char>, package: Seq<char>) -> Seq<(Seq<char>, Seq<char>)> {
    entries_for(pieces(report, true), package)
}

/// The version texts of `entries`.
pub open spec fn versions_of(entries: Seq<(Seq<char>, Seq<char>)>) -> Seq<Seq<char>> {
    entries.map_values(|e: (Seq<char>, Seq<char>)| e.1)
}

/// What `yarn why` writes to stderr when it finds no such package.
pub open spec fn not_found_notice() -> Seq<char> {
    "couldn't find a match"@
}

/// The characters of `=> Found "`.
fn found_marker_chars() -> (v: Vec<char>)
    ensures
        v@ == found_marker(),
{
    let mut v: Vec<char> = Vec::new();
    v.push('=');
    v.push('>');
    v.push(' ');
    v.push('F');
    v.push('o');
    v.push('u');
    v.push('n');
    v.push('d');
    v.push(' ');
    v.push('"');
    assert(v@ =~= found_marker());
    v
}

/// Where the package path and the version of a `=> Found` line lie: the path
/// is `line[start..at]` and the version `line[at + 1..end]`.
fn found_entry_bounds(line: &Vec<char>) -> (r: Option<(usize, usize, usize)>)
    ensures
        match r {
            Some((start, at, end)) => start < at < end <= line@.len() && found_entry(line@) == Some(
                (line@.subrange(start as int, at as int), line@.subrange(at + 1, end as int)),
            ),
            None => found_entry(line@) is None,
        },
{
    let n = line.len();
    let k = skip_whitespace(line, 0, n);
    assert(line@.subrange(0, n as int) =~= line@);
    let ghost t = line@.subrange(k as int, n as int);
    let marker = found_marker_chars();
    if n - k <= marker.len() {
        return None;
    }
    let start = k + marker.len();
    assert(t.take(marker@.len() as int) =~= line@.subrange(k as int, start as int));
    if !range_is(line, k, start, &marker) {
        return None;
    }
    if line[n - 1] != '"' {
        return None;
    }
    let end = n - 1;
    let ghost body = t.subrange(marker@.len() as int, t.len() - 1);
    assert(body =~= line@.subrange(start as int, end as int));
    let quote = find_first(line, start, end, '"');
    if quote != end {
        return None;
    }
    match find_last(line, start, end, '@') {
        None => None,
        Some(at) => {
            if at == start {
                return None;
            }
            assert(body.take(at - start) =~= line@.subrange(start as int, at as int));
            assert(body.skip(at - start + 1) =~= line@.subrange(at + 1, end as int));
            if is_version_range(line, at + 1, end) {
                Some((start, at, end))
            } else {
                None
            }
        },
    }
}

/// Whether `line[start..at]` names `package` (see `names_package`).
fn names_package_range(line: &Vec<char>, start: usize, at: usize, package: &Vec<char>) -> (r: bool)
    requires
        start <= at <= line@.len(),
    ensures
        r == names_package(line@.subrange(start as int, at as int), package@),
{
    if range_is(line, start, at, package) {
        return true;
    }
    let from = match find_last(line, start, at, '#') {
        Some(h) => h + 1,
        None => start,
    };
    assert(line@.subrange(start as int, at as int).skip(from - start) =~= line@.subrange(
        from as int,
        at as int,
    ));
    range_is(line, from, at, package)
}

/// Calls `String::from_utf8`. Trusted: it succeeds exactly on valid UTF-8,
/// and the string holds the characters that the bytes encode.
#[verifier::external_body]
fn string_from_utf8(bytes: Vec<u8>) -> (res: Option<String>)
    ensures
        res is Some <==> valid_utf8(bytes@),
        res matches Some(s) ==> s@ == decode_utf8(bytes@),
{
    String::from_utf8(bytes).ok()
}

/// Why `JsChecker::check` could not answer.
#[derive(Debug)]
pub enum CheckError {
    /// The report of `yarn why` is not UTF-8.
    StdoutNotUtf8,
    /// The messages of `yarn why` are not UTF-8.
    StderrNotUtf8,
    /// A version in the report is not a SemVer version.
    InvalidVersion(VersionError),
    /// `yarn why` found the package, but no line of its report names it.
    NoVersionsFound { stdout: String, stderr: String },
}

/// Reads what `yarn why` reports of a JavaScript project.
#[derive(Debug)]
pub struct JsChecker;

impl Default for JsChecker {
    fn default() -> (r: JsChecker)
        ensures
            r == JsChecker,
    {
        JsChecker
    }
}

impl JsChecker {
    /// The `(package path, version text)` pairs that the `yarn why` report
    /// `stdout` gives for `package`, in order.
    pub fn find_entries(&self, stdout: &str, package: &str) -> (found: Vec<(String, String)>)
        ensures
            found@.len() == yarn_entries(stdout@, package@).len(),
            forall|i: int|
                0 <= i < found@.len() ==> (#[trigger] found@[i]).0@ == yarn_entries(
                    stdout@,
                    package@,
                )[i].0 && found@[i].1@ == yarn_entries(stdout@, package@)[i].1,
    {
        let chars = chars_of(stdout);
        let pkg = chars_of(package);
        let bounds = piece_bounds(&chars, true);
        let ghost ps = pieces(chars@, true);
        let mut found: Vec<(String, String)> = Vec::new();
        let mut i: usize = 0;
        while i < bounds.len()
            invariant
                chars@ == stdout@,
                pkg@ == package@,
                ps == pieces(chars@, true),
                bounds@.len() == ps.len(),
                forall|k: int|
                    0 <= k < bounds@.len() ==> {
                        &&& (#[trigger] bounds@[k]).0 <= bounds@[k].1 <= chars@.len()
                        &&& chars@.subrange(bounds@[k].0 as int, bounds@[k].1 as int) == ps[k]
                    },
                i <= bounds@.len(),
                found@.len() == entries_for(ps.take(i as int), package@).len(),
                forall|j: int|
                    0 <= j < found@.len() ==> (#[trigger] found@[j]).0@ == entries_for(
                        ps.take(i as int),
                        package@,
                    )[j].0 && found@[j].1@ == entries_for(ps.take(i as int), package@)[j].1,
            decreases bounds@.len() - i,
        {
            let (s, e) = bounds[i];
            let line = copy_range(&chars, s, e);
            assert(ps.take(i + 1).drop_last() =~= ps.take(i as int));
            assert(ps.take(i + 1).last() == line@);
            match found_entry_bounds(&line) {
                Some((a, at, b)) => {
                    if names_package_range(&line, a, at, &pkg) {
                        assert(line@.subrange(a as int, at as int) =~= chars@.subrange(
                            s + a,
                            s + at,
                        ));
                        assert(line@.subrange(at + 1, b as int) =~= chars@.subrange(
                            s + at + 1,
                            s + b,
                        ));
                        let path = stdout.substring_char(s + a, s + at).to_owned();
                        let version = stdout.substring_char(s + at + 1, s + b).to_owned();
                        found.push((path, version));
                    }
                },
                None => {},
            }
            i = i + 1;
        }
        assert(ps.take(bounds@.len() as int) =~= ps);
        found
    }

    /// The `(package path, version)` pairs that the `yarn why` report `stdout`
    /// gives for `package`, in order; an error for the first version text of
    /// such a pair that is not a SemVer version.
    pub fn find_versions(&self, stdout: &str, package: &str) -> (res: Result<
        Vec<(String, PackageVersion)>,
        VersionError,
    >)
        ensures
            ({
                let es = yarn_entries(stdout@, package@);
                &&& res is Ok <==> all_parse(versions_of(es))
                &&& res matches Ok(found) ==> {
                    &&& found@.len() == es.len()
                    &&& forall|i: int|
                        0 <= i < es.len() ==> (#[trigger] found@[i]).0@ == es[i].0 && found@[i].1@
                            == es[i].1
                }
                &&& res matches Err(e) ==> exists|k: int|
                    first_unparsable(versions_of(es), k) && is_version_error(e, es[k].1)
            }),
    {
        let entries = self.find_entries(stdout, package);
        let ghost es = yarn_entries(stdout@, package@);
        let ghost vs = versions_of(es);
        let mut found: Vec<(String, PackageVersion)> = Vec::new();
        let mut i: usize = 0;
        while i < entries.len()
            invariant
                es == yarn_entries(stdout@, package@),
                vs == versions_of(es),
                entries@.len() == es.len(),
                forall|j: int|
                    0 <= j < es.len() ==> (#[trigger] entries@[j]).0@ == es[j].0 && entries@[j].1@
                        == es[j].1,
                i <= es.len(),
                found@.len() == i,
                forall|j: int|
                    0 <= j < i ==> (#[trigger] found@[j]).0@ == es[j].0 && found@[j].1@ == es[j].1,
                forall|j: int| 0 <= j < i ==> semver_version_parses(#[trigger] vs[j]),
            decreases es.len() - i,
        {
            match PackageVersion::parse(entries[i].1.as_str()) {
                Ok(v) => {
                    found.push((entries[i].0.clone(), v));
                },
                Err(e) => {
                    assert(first_unparsable(vs, i as int));
                    assert(!all_parse(vs));
                    return Err(e);
                },
            }
            i = i + 1;
        }
        Ok(found)
    }
}

impl JsChecker {
    /// Decides, from what `yarn why <package>` printed, whether the project
    /// holds `package` at a version that `version` matches. No when yarn says
    /// that it finds no match; an error when the output is not UTF-8, when a
    /// reported version is not SemVer, or when no line names the package.
    pub fn check(
        &self,
        stdout: Vec<u8>,
        stderr: Vec<u8>,
        package: &str,
        version: &Requirement,
    ) -> (res: Result<bool, CheckError>)
        ensures
            !valid_utf8(stdout@) ==> res matches Err(CheckError::StdoutNotUtf8),
            valid_utf8(stdout@) && !valid_utf8(stderr@) ==> res matches Err(
                CheckError::StderrNotUtf8,
            ),
            valid_utf8(stdout@) && valid_utf8(stderr@) ==> ({
                let out = decode_utf8(stdout@);
                let err = decode_utf8(stderr@);
                let es = yarn_entries(out, package@);
                if has_substring(err, not_found_notice()) {
                    res matches Ok(b) && !b
                } else if !all_parse(versions_of(es)) {
                    res matches Err(CheckError::InvalidVersion(e)) && exists|k: int|
                        first_unparsable(versions_of(es), k) && is_version_error(e, es[k].1)
                } else if es.len() == 0 {
                    res matches Err(CheckError::NoVersionsFound { stdout: o, stderr: m }) && o@
                        == out && m@ == err
                } else {
                    res matches Ok(b) && b == exists|i: int|
                        0 <= i < es.len() && semver_req_matches(version@, #[trigger] es[i].1)
                }
            }),
    {
        let out = match string_from_utf8(stdout) {
            Some(s) => s,
            None => return Err(CheckError::StdoutNotUtf8),
        };
        let err = match string_from_utf8(stderr) {
            Some(s) => s,
            None => return Err(CheckError::StderrNotUtf8),
        };
        let err_chars = chars_of(err.as_str());
        let notice = chars_of("couldn't find a match");
        if contains_text(&err_chars, &notice) {
            return Ok(false);
        }
        let found = match self.find_versions(out.as_str(), package) {
            Ok(found) => found,
            Err(e) => return Err(CheckError::InvalidVersion(e)),
        };
        let ghost es = yarn_entries(out@, package@);
        if found.len() == 0 {
            return Err(CheckError::NoVersionsFound { stdout: out, stderr: err });
        }
        let mut i: usize = 0;
        #[verifier::loop_isolation(false)]
        while i < found.len()
            invariant
                found@.len() == es.len(),
                forall|j: int| 0 <= j < es.len() ==> (#[trigger] found@[j]).1@ == es[j].1,
                i <= found@.len(),
                forall|j: int| 0 <= j < i ==> !semver_req_matches(version@, #[trigger] es[j].1),
            decreases found@.len() - i,
        {
            if version.matches(&found[i].1) {
                assert(semver_req_matches(version@, es[i as int].1));
                return Ok(true);
            }
            i = i + 1;
        }
        Ok(false)
    }
}

} // verus!

verus! {

proof fn lemma_entries_concat(first: Seq<Seq<char>>, second: Seq<Seq<char>>, package: Seq<char>)
    ensures
        entries_for(first + second, package) == entries_for(first, package) + entries_for(
            second,
            package,
        ),
    decreases second.len(),
{
    if second.len() == 0 {
        assert(first + second =~= first);
        assert(entries_for(first, package) + entries_for(second, package) =~= entries_for(
            first,
            package,
        ));
    } else {
        assert((first + second).drop_last() =~= first + second.drop_last());
        lemma_entries_concat(first, second.drop_last(), package);
        assert((first + second).last() == second.last());
        assert(entries_for(first + second, package) =~= entries_for(first, package) + entries_for(
            second,
            package,
        ));
    }
}

/// A `yarn why` report is read line by line: two reports joined by a line
/// break (a line feed or a carriage return) give the entries of the first,
/// then those of the second.
pub proof fn law_yarn_entries_concat(
    first: Seq<char>,
    sep: char,
    second: Seq<char>,
    package: Seq<char>,
)
    requires
        sep == '\n' || sep == '\r',
    ensures
        yarn_entries(first + seq![sep] + second, package) == yarn_entries(first, package)
            + yarn_entries(second, package),
{
    lemma_pieces_concat(first, sep, second, true);
    lemma_entries_concat(pieces(first, true), pieces(second, true), package);
}

/// A `yarn why` report reads the same whether its lines end in carriage
/// returns or in line feeds.
pub proof fn law_yarn_carriage_returns(report: Seq<char>, package: Seq<char>)
    ensures
        yarn_entries(cr_to_lf(report), package) == yarn_entries(report, package),
{
    lemma_pieces_cr_to_lf(report);
}

/// White space before `=> Found` changes nothing.
pub proof fn law_found_entry_indented(space: Seq<char>, line: Seq<char>)
    requires
        forall|i: int| 0 <= i < space.len() ==> is_unicode_whitespace(#[trigger] space[i]),
    ensures
        found_entry(space + line) == found_entry(line),
{
    lemma_trim_start_after_whitespace(space, line);
}

proof fn lemma_found_entry_shape(line: Seq<char>)
    ensures
        found_entry(line) matches Some(e) ==> e.0.len() > 0 && is_version_text(e.1),
{
    let t = trim_start(line);
    let n = found_marker().len() as int;
    if t.len() > n {
        lemma_last_index_bounds(t.subrange(n, t.len() - 1), '@');
    }
}

proof fn lemma_entries_named(lines: Seq<Seq<char>>, package: Seq<char>)
    ensures
        forall|i: int|
            0 <= i < entries_for(lines, package).len() ==> {
                let e = #[trigger] entries_for(lines, package)[i];
                &&& names_package(e.0, package)
                &&& e.0.len() > 0
                &&& is_version_text(e.1)
            },
    decreases lines.len(),
{
    if lines.len() > 0 {
        lemma_entries_named(lines.drop_last(), package);
        lemma_found_entry_shape(lines.last());
        let before = entries_for(lines.drop_last(), package);
        assert forall|i: int| 0 <= i < entries_for(lines, package).len() implies {
            let e = #[trigger] entries_for(lines, package)[i];
            &&& names_package(e.0, package)
            &&& e.0.len() > 0
            &&& is_version_text(e.1)
        } by {
            if i < before.len() {
                assert(entries_for(lines, package)[i] == before[i]);
            }
        }
    }
}

/// Every entry of a `yarn why` report names the package asked about (itself,
/// or a path that ends in it after a `#`), and its version has the shape of
/// a version.
pub proof fn law_yarn_entries_name_package(report: Seq<char>, package: Seq<char>)
    ensures
        forall|i: int|
            0 <= i < yarn_entries(report, package).len() ==> {
                let e = #[trigger] yarn_entries(report, package)[i];
                &&& names_package(e.0, package)
                &&& e.0.len() > 0
                &&& is_version_text(e.1)
            },
{
    lemma_entries_named(pieces(report, true), package);
}

/// A line `=> Found "PATH@VERSION"` reports that path and version, for every
/// non-empty path without quotes or line breaks and every version text
/// (whatever digits it holds); asked about the path itself, such a report
/// gives that entry, and as the last line of a report it adds that entry at
/// the end.
pub proof fn law_yarn_found_line(first: Seq<char>, path: Seq<char>, version: Seq<char>)
    requires
        path.len() > 0,
        forall|i: int|
            0 <= i < path.len() ==> #[trigger] path[i] != '"' && path[i] != '\n' && path[i] != '\r',
        is_version_text(version),
    ensures
        ({
            let line = seq!['=', '>', ' ', 'F', 'o', 'u', 'n', 'd', ' ', '"'] + path + seq!['@']
                + version + seq!['"'];
            &&& found_entry(line) == Some((path, version))
            &&& yarn_entries(line, path) == seq![(path, version)]
            &&& yarn_entries(first + seq!['\n'] + line, path) == yarn_entries(first, path).push(
                (path, version),
            )
        }),
{
    let marker = seq!['=', '>', ' ', 'F', 'o', 'u', 'n', 'd', ' ', '"'];
    let line = marker + path + seq!['@'] + version + seq!['"'];
    law_version_text_chars(version);
    assert(line[0] == '=');
    assert(trim_start(line) == line);
    assert(line.take(10) =~= found_marker());
    let body = line.subrange(10, line.len() - 1);
    assert(body =~= path + seq!['@'] + version);
    let p = path.len() as int;
    assert forall|j: int| 0 <= j < body.len() implies #[trigger] body[j] != '"' && (j > p ==> body[j]
        != '@') && body[j] != '\n' && body[j] != '\r' by {
        if j < p {
            assert(body[j] == path[j]);
        } else if j > p {
            assert(body[j] == version[j - p - 1]);
        }
    }
    lemma_first_index(body, '"', body.len() as int);
    lemma_last_index(body, '@', p);
    assert(body.take(p) =~= path);
    assert(body.skip(p + 1) =~= version);
    assert(found_entry(line) == Some((path, version)));
    assert forall|j: int| 0 <= j < line.len() implies #[trigger] line[j] != '\n' && line[j] != '\r' by {
        if 10 <= j < line.len() - 1 {
            assert(line[j] == body[j - 10]);
        }
    }
    law_pieces_one_line(line, true);
    assert(seq![line].drop_last() =~= Seq::<Seq<char>>::empty());
    assert(entries_for(Seq::<Seq<char>>::empty(), path) == Seq::<(Seq<char>, Seq<char>)>::empty());
    assert(seq![line].last() == line);
    assert(entries_for(seq![line], path) =~= seq![(path, version)]);
    law_yarn_entries_concat(first, '\n', line, path);
    assert(yarn_entries(first, path) + seq![(path, version)] =~= yarn_entries(first, path).push(
        (path, version),
    ));
}

/// A path that ends in `#` and the package names the package, whatever
/// comes before, where the package holds no `#`.
pub proof fn law_names_package_after_hash(prefix: Seq<char>, package: Seq<char>)
    requires
        forall|i: int| 0 <= i < package.len() ==> #[trigger] package[i] != '#',
    ensures
        names_package(prefix + seq!['#'] + package, package),
{
    let path = prefix + seq!['#'] + package;
    let h = prefix.len() as int;
    assert forall|j: int| h < j < path.len() implies #[trigger] path[j] != '#' by {
        assert(path[j] == package[j - h - 1]);
    }
    lemma_last_index(path, '#', h);
    assert(path.skip(h + 1) =~= package);
}

/// Only `=> Found` lines report entries: a line that reports `(path,
/// version)` is white space, then `=> Found "`, the path (not empty, without
/// quotes), `@`, a version text (without `@`), a closing `"`, and nothing more.
pub proof fn law_found_entry_shape(line: Seq<char>, path: Seq<char>, version: Seq<char>)
    requires
        found_entry(line) == Some((path, version)),
    ensures
        exists|k: int|
            0 <= k <= line.len() && (forall|j: int|
                0 <= j < k ==> is_unicode_whitespace(#[trigger] line[j])) && #[trigger] line.skip(k)
                == seq!['=', '>', ' ', 'F', 'o', 'u', 'n', 'd', ' ', '"'] + path + seq!['@']
                + version + seq!['"'],
        path.len() > 0,
        forall|i: int| 0 <= i < path.len() ==> #[trigger] path[i] != '"',
        is_version_text(version),
        forall|i: int| 0 <= i < version.len() ==> #[trigger] version[i] != '@' && version[i] != '"',
{
    let k = lemma_trim_start_index(line);
    let t = line.skip(k);
    let body = t.subrange(10, t.len() - 1);
    let at = last_index(body, '@');
    lemma_last_index_bounds(body, '@');
    lemma_first_index_props(body, '"');
    law_version_text_chars(version);
    assert(body.take(at) == path);
    assert(body.skip(at + 1) == version);
    assert(body =~= path + seq!['@'] + version);
    assert(t.take(10) == found_marker());
    assert(t =~= seq!['=', '>', ' ', 'F', 'o', 'u', 'n', 'd', ' ', '"'] + body + seq!['"']);
    assert(line.skip(k) =~= seq!['=', '>', ' ', 'F', 'o', 'u', 'n', 'd', ' ', '"'] + path + seq![
        '@',
    ] + version + seq!['"']);
    assert forall|i: int| 0 <= i < path.len() implies #[trigger] path[i] != '"' by {
        assert(path[i] == body[i]);
    }
}

/// A path names a package only when it is the package, or ends in `#` and
/// the package: `form-data-extra` does not name `form-data`.
pub proof fn law_names_package_shape(path: Seq<char>, package: Seq<char>)
    requires
        names_package(path, package),
    ensures
        path == package || exists|prefix: Seq<char>| path == #[trigger] (prefix + seq!['#'] + package),
{
    if path != package {
        let h = last_index(path, '#');
        lemma_last_index_bounds(path, '#');
        if h == -1 {
            assert(path.skip(0) =~= path);
        } else {
            let prefix = path.take(h);
            assert(path =~= prefix + seq!['#'] + path.skip(h + 1));
        }
    }
}

} // verus!
