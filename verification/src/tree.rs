//! Reading the output of `cargo tree` for a Rust project.

use vstd::prelude::*;
use vstd::string::StrSliceExecFns;

use crate::text::{
    chars_of, copy_range, is_unicode_whitespace, is_whitespace, law_pieces_one_line,
    lemma_pieces_concat, piece_bounds, pieces, range_is,
};
use crate::version::{
    all_parse, first_unparsable, is_identifier_char, is_version_error, law_version_text_chars, is_version_range, is_version_text, parse_all,
    semver_req_matches, texts_view, PackageVersion, Requirement, VersionError,
};

verus! {

/// Whether `c` is a Unicode word character, as the regular-expression class
/// `\w` and word boundaries `\b` take it (`regex_syntax::is_word_character`).
pub uninterp spec fn unicode_word_char(c: char) -> bool;

/// Calls `regex_syntax::is_word_character`. Trusted: it answers
/// `unicode_word_char`, a fixed property of the character (Alphabetic,
/// Join_Control, decimal numbers, marks, connector punctuation). It panics only
/// without the crate's `unicode-perl` feature, which its default features hold.
#[verifier::external_body]
fn is_word_character(c: char) -> (r: bool)
    ensures
        r == unicode_word_char(c),
{
    regex_syntax::is_word_character(c)
}

/// The characters that can occur in a version: those of identifiers, and `+`.
pub open spec fn is_version_char(c: char) -> bool {
    is_identifier_char(c) || c == '+'
}

/// Where the run of version characters that starts at `from` ends.
pub open spec fn version_run_end(line: Seq<char>, from: int) -> int
    decreases line.len() - from,
{
    if 0 <= from < line.len() && is_version_char(line[from]) {
        version_run_end(line, from + 1)
    } else {
        from
    }
}

/// Whether a package name may start at `start` of `line`: at the start of
/// the line, or after a character that cannot occur in a crate name (neither
/// a word character nor `-`), so that `xshell-macros` or `xshell` is not
/// read as `macros` or `shell`.
pub open spec fn name_starts_at(line: Seq<char>, start: int) -> bool {
    start == 0 || (!unicode_word_char(line[start - 1]) && line[start - 1] != '-')
}

/// The version that `line` gives for `package` where the package's name
/// starts at `start`: a name may start there (see `name_starts_at`), and it is followed by
/// ` v`, then by a text of the shape of a version that ends the line or is
/// followed by white space or `(`.
pub open spec fn tree_version_at(line: Seq<char>, package: Seq<char>, start: int) -> Option<
    Seq<char>,
> {
    let m = package.len() as int;
    let from = start + m + 2;
    let end = version_run_end(line, from);
    let found = {
        &&& 0 <= start
        &&& from <= line.len()
        &&& line.subrange(start, start + m) == package
        &&& line[start + m] == ' '
        &&& line[start + m + 1] == 'v'
        &&& name_starts_at(line, start)
        &&& is_version_text(line.subrange(from, end))
        &&& end == line.len() || is_unicode_whitespace(line[end]) || line[end] == '('
    };
    if found {
        Some(line.subrange(from, end))
    } else {
        None
    }
}

/// The version that `line` gives for `package` at the last start before `k`
/// where it gives one.
pub open spec fn tree_version_before(line: Seq<char>, package: Seq<char>, k: int) -> Option<
    Seq<char>,
>
    decreases k,
{
    if k <= 0 {
        None
    } else {
        match tree_version_at(line, package, k - 1) {
            Some(v) => Some(v),
            None => tree_version_before(line, package, k - 1),
        }
    }
}

/// The version that a line of `cargo tree` gives for `package`: where the
/// line names the package more than once, the last mention counts.
pub open spec fn tree_version(line: Seq<char>, package: Seq<char>) -> Option<Seq<char>> {
    tree_version_before(line, package, line.len() as int)
}

/// The versions that `lines` give for `package`, in order.
pub open spec fn versions_for(lines: Seq<Seq<char>>, package: Seq<char>) -> Seq<Seq<char>>
    decreases lines.len(),
{
    if lines.len() == 0 {
        Seq::empty()
    } else {
        let before = versions_for(lines.drop_last(), package);
        match tree_version(lines.last(), package) {
            Some(v) => before.push(v),
            None => before,
        }
    }
}

/// The versions that the output of `cargo tree` gives for `package`, line
/// by line (lines are cut at line feeds).
pub open spec fn tree_versions(tree: Seq<char>, package: Seq<char>) -> Seq<Seq<char>> {
    versions_for(pieces(tree, false), package)
}

fn is_version_character(c: char) -> (r: bool)
    ensures
        r == is_version_char(c),
{
    ('0' <= c && c <= '9') || ('A' <= c && c <= 'Z') || ('a' <= c && c <= 'z') || c == '.' || c
        == '-' || c == '+'
}

/// Where the run of version characters that starts at `from` ends.
fn run_end(line: &Vec<char>, from: usize) -> (e: usize)
    requires
        from <= line@.len(),
    ensures
        e == version_run_end(line@, from as int),
        from <= e <= line@.len(),
{
    let mut i = from;
    while i < line.len() && is_version_character(line[i])
        invariant
            from <= i <= line@.len(),
            version_run_end(line@, i as int) == version_run_end(line@, from as int),
        decreases line@.len() - i,
    {
        i = i + 1;
    }
    i
}

/// Where the version that `line` gives for `package` at `start` lies.
fn version_at(line: &Vec<char>, package: &Vec<char>, start: usize) -> (r: Option<(usize, usize)>)
    requires
        start <= line@.len(),
    ensures
        match r {
            Some((a, b)) => a <= b <= line@.len() && tree_version_at(line@, package@, start as int)
                == Some(line@.subrange(a as int, b as int)),
            None => tree_version_at(line@, package@, start as int) is None,
        },
{
    let n = line.len();
    let m = package.len();
    if m > n - start || n - start - m < 2 {
        return None;
    }
    let name_end = start + m;
    if !range_is(line, start, name_end, package) {
        return None;
    }
    if line[name_end] != ' ' || line[name_end + 1] != 'v' {
        return None;
    }
    if start > 0 && (line[start - 1] == '-' || is_word_character(line[start - 1])) {
        return None;
    }
    let from = name_end + 2;
    let end = run_end(line, from);
    if !is_version_range(line, from, end) {
        return None;
    }
    if end < n && !is_whitespace(line[end]) && line[end] != '(' {
        return None;
    }
    Some((from, end))
}

/// Where the version that `line` gives for `package` lies (see `tree_version`).
fn line_version(line: &Vec<char>, package: &Vec<char>) -> (r: Option<(usize, usize)>)
    ensures
        match r {
            Some((a, b)) => a <= b <= line@.len() && tree_version(line@, package@) == Some(
                line@.subrange(a as int, b as int),
            ),
            None => tree_version(line@, package@) is None,
        },
{
    let mut k = line.len();
    while k > 0
        invariant
            k <= line@.len(),
            tree_version(line@, package@) == tree_version_before(line@, package@, k as int),
        decreases k,
    {
        match version_at(line, package, k - 1) {
            Some((a, b)) => {
                return Some((a, b));
            },
            None => {},
        }
        k = k - 1;
    }
    None
}

/// Reads the output of `cargo tree` for a Rust project.
#[derive(Debug)]
pub struct CargoChecker {
    pub tree: String,
}

impl CargoChecker {
    /// The version texts that the `cargo tree` output gives for `package`,
    /// one per line that names it, in order.
    pub fn find_version_texts(&self, package: &str) -> (found: Vec<String>)
        ensures
            texts_view(found@) == tree_versions(self.tree@, package@),
    {
        let tree = self.tree.as_str();
        let chars = chars_of(tree);
        let pkg = chars_of(package);
        let bounds = piece_bounds(&chars, false);
        let ghost ps = pieces(chars@, false);
        let mut found: Vec<String> = Vec::new();
        let mut i: usize = 0;
        while i < bounds.len()
            invariant
                chars@ == tree@,
                tree@ == self.tree@,
                pkg@ == package@,
                ps == pieces(chars@, false),
                bounds@.len() == ps.len(),
                forall|k: int|
                    0 <= k < bounds@.len() ==> {
                        &&& (#[trigger] bounds@[k]).0 <= bounds@[k].1 <= chars@.len()
                        &&& chars@.subrange(bounds@[k].0 as int, bounds@[k].1 as int) == ps[k]
                    },
                i <= bounds@.len(),
                texts_view(found@) == versions_for(ps.take(i as int), package@),
            decreases bounds@.len() - i,
        {
            let (s, e) = bounds[i];
            let line = copy_range(&chars, s, e);
            assert(ps.take(i + 1).drop_last() =~= ps.take(i as int));
            assert(ps.take(i + 1).last() == line@);
            match line_version(&line, &pkg) {
                Some((a, b)) => {
                    assert(line@.subrange(a as int, b as int) =~= chars@.subrange(s + a, s + b));
                    let text = tree.substring_char(s + a, s + b).to_owned();
                    let ghost before = found@;
                    found.push(text);
                    assert(texts_view(found@) =~= texts_view(before).push(text@));
                },
                None => {},
            }
            i = i + 1;
        }
        assert(ps.take(bounds@.len() as int) =~= ps);
        found
    }

    /// The versions that the `cargo tree` output gives for `package`, one per
    /// line that names it, in order; an error for the first that is not a
    /// SemVer version.
    pub fn find_versions(&self, package: &str) -> (res: Result<Vec<PackageVersion>, VersionError>)
        ensures
            ({
                let vs = tree_versions(self.tree@, package@);
                &&& res is Ok <==> all_parse(vs)
                &&& res matches Ok(found) ==> {
                    &&& found@.len() == vs.len()
                    &&& forall|i: int| 0 <= i < vs.len() ==> (#[trigger] found@[i])@ == vs[i]
                }
                &&& res matches Err(e) ==> exists|k: int| first_unparsable(vs, k) && is_version_error(e, vs[k])
            }),
    {
        let texts = self.find_version_texts(package);
        let res = parse_all(&texts);
        proof {
            let vs = tree_versions(self.tree@, package@);
            assert forall|i: int| 0 <= i < texts@.len() implies texts@[i]@ == #[trigger] vs[i] by {
                assert(texts_view(texts@)[i] == texts@[i]@);
            }
        }
        res
    }

    /// Whether the project holds `package` at a version that `version`
    /// matches; an error for the first version of the package that is not
    /// a SemVer version.
    pub fn check(&self, package: &str, version: &Requirement) -> (res: Result<bool, VersionError>)
        ensures
            ({
                let vs = tree_versions(self.tree@, package@);
                &&& res is Ok <==> all_parse(vs)
                &&& res matches Ok(b) ==> b == exists|i: int|
                    0 <= i < vs.len() && semver_req_matches(version@, #[trigger] vs[i])
                &&& res matches Err(e) ==> exists|k: int| first_unparsable(vs, k) && is_version_error(e, vs[k])
            }),
    {
        let found = self.find_versions(package)?;
        let ghost vs = tree_versions(self.tree@, package@);
        let mut i: usize = 0;
        while i < found.len()
            invariant
                vs == tree_versions(self.tree@, package@),
                all_parse(vs),
                found@.len() == vs.len(),
                forall|j: int| 0 <= j < vs.len() ==> (#[trigger] found@[j])@ == vs[j],
                i <= found@.len(),
                forall|j: int| 0 <= j < i ==> !semver_req_matches(version@, #[trigger] vs[j]),
            decreases found@.len() - i,
        {
            if version.matches(&found[i]) {
                assert(semver_req_matches(version@, vs[i as int]));
                return Ok(true);
            }
            i = i + 1;
        }
        Ok(false)
    }
}

} // verus!

verus! {

proof fn lemma_versions_concat(first: Seq<Seq<char>>, second: Seq<Seq<char>>, package: Seq<char>)
    ensures
        versions_for(first + second, package) == versions_for(first, package) + versions_for(
            second,
            package,
        ),
    decreases second.len(),
{
    if second.len() == 0 {
        assert(first + second =~= first);
        assert(versions_for(first, package) + versions_for(second, package) =~= versions_for(
            first,
            package,
        ));
    } else {
        assert((first + second).drop_last() =~= first + second.drop_last());
        lemma_versions_concat(first, second.drop_last(), package);
        assert((first + second).last() == second.last());
        assert(versions_for(first + second, package) =~= versions_for(first, package)
            + versions_for(second, package));
    }
}

/// The output of `cargo tree` is read line by line: two outputs joined by a
/// line feed give the versions of the first, then those of the second.
pub proof fn law_tree_versions_concat(first: Seq<char>, second: Seq<char>, package: Seq<char>)
    ensures
        tree_versions(first + seq!['\n'] + second, package) == tree_versions(first, package)
            + tree_versions(second, package),
{
    lemma_pieces_concat(first, '\n', second, false);
    lemma_versions_concat(pieces(first, false), pieces(second, false), package);
}

proof fn lemma_tree_version_before_shape(line: Seq<char>, package: Seq<char>, k: int)
    ensures
        tree_version_before(line, package, k) matches Some(v) ==> is_version_text(v),
    decreases k,
{
    if k > 0 {
        lemma_tree_version_before_shape(line, package, k - 1);
    }
}

proof fn lemma_versions_shape(lines: Seq<Seq<char>>, package: Seq<char>)
    ensures
        forall|i: int|
            0 <= i < versions_for(lines, package).len() ==> is_version_text(
                #[trigger] versions_for(lines, package)[i],
            ),
    decreases lines.len(),
{
    if lines.len() > 0 {
        lemma_versions_shape(lines.drop_last(), package);
        lemma_tree_version_before_shape(lines.last(), package, lines.last().len() as int);
        let before = versions_for(lines.drop_last(), package);
        assert forall|i: int| 0 <= i < versions_for(lines, package).len() implies is_version_text(
            #[trigger] versions_for(lines, package)[i],
        ) by {
            if i < before.len() {
                assert(versions_for(lines, package)[i] == before[i]);
            }
        }
    }
}

/// Every version read from the output of `cargo tree` has the shape of a
/// version, and a line gives at most one version.
pub proof fn law_tree_versions_shape(tree: Seq<char>, package: Seq<char>)
    ensures
        forall|i: int|
            0 <= i < tree_versions(tree, package).len() ==> is_version_text(
                #[trigger] tree_versions(tree, package)[i],
            ),
        tree_versions(tree, package).len() <= pieces(tree, false).len(),
{
    lemma_versions_shape(pieces(tree, false), package);
    lemma_versions_count(pieces(tree, false), package);
}

proof fn lemma_versions_count(lines: Seq<Seq<char>>, package: Seq<char>)
    ensures
        versions_for(lines, package).len() <= lines.len(),
    decreases lines.len(),
{
    if lines.len() > 0 {
        lemma_versions_count(lines.drop_last(), package);
    }
}

proof fn lemma_run_to_end(line: Seq<char>, from: int)
    requires
        0 <= from <= line.len(),
        forall|j: int| from <= j < line.len() ==> is_version_char(#[trigger] line[j]),
    ensures
        version_run_end(line, from) == line.len(),
    decreases line.len() - from,
{
    if from < line.len() {
        lemma_run_to_end(line, from + 1);
    }
}

proof fn lemma_no_later_start(line: Seq<char>, package: Seq<char>, k: int)
    requires
        1 <= k <= line.len(),
        forall|j: int|
            package.len() < j < line.len() ==> #[trigger] line[j] != ' ',
    ensures
        tree_version_before(line, package, k) == tree_version_before(line, package, 1),
    decreases k,
{
    if k > 1 {
        let j = k - 1;
        if j + package.len() + 2 <= line.len() {
            assert(line[j + package.len()] != ' ');
        }
        assert(tree_version_at(line, package, j) is None);
        lemma_no_later_start(line, package, k - 1);
    }
}

/// A line `NAME vVERSION` of `cargo tree` output, with the name at its start,
/// gives exactly that version for `NAME`, for every version text (whatever
/// digits it holds); and appended as the last line of an output, it adds that
/// version at the end of what the output gives.
pub proof fn law_tree_line(first: Seq<char>, package: Seq<char>, version: Seq<char>)
    requires
        is_version_text(version),
        forall|i: int| 0 <= i < package.len() ==> #[trigger] package[i] != ' ' && package[i] != '\n',
    ensures
        tree_versions(package + seq![' ', 'v'] + version, package) == seq![version],
        tree_versions(first + seq!['\n'] + package + seq![' ', 'v'] + version, package)
            == tree_versions(first, package).push(version),
{
    let line = package + seq![' ', 'v'] + version;
    let m = package.len() as int;
    law_version_text_chars(version);
    assert forall|j: int| m + 2 <= j < line.len() implies is_version_char(#[trigger] line[j]) by {
        assert(line[j] == version[j - m - 2]);
    }
    assert forall|j: int| m < j < line.len() implies #[trigger] line[j] != ' ' by {
        if j >= m + 2 {
            assert(line[j] == version[j - m - 2]);
        }
    }
    assert forall|j: int| 0 <= j < line.len() implies #[trigger] line[j] != '\n' by {
        if j < m {
            assert(line[j] == package[j]);
        } else if j >= m + 2 {
            assert(line[j] == version[j - m - 2]);
        }
    }
    law_pieces_one_line(line, false);
    lemma_run_to_end(line, m + 2);
    assert(line.subrange(0, m) =~= package);
    assert(line.subrange(m + 2, line.len() as int) =~= version);
    assert(tree_version_at(line, package, 0) == Some(version));
    lemma_no_later_start(line, package, line.len() as int);
    assert(tree_version(line, package) == Some(version));
    assert(seq![line].drop_last() =~= Seq::<Seq<char>>::empty());
    assert(versions_for(Seq::<Seq<char>>::empty(), package) == Seq::<Seq<char>>::empty());
    assert(seq![line].last() == line);
    assert(versions_for(seq![line], package) =~= seq![version]);
    law_tree_versions_concat(first, line, package);
    assert(first + seq!['\n'] + package + seq![' ', 'v'] + version =~= first + seq!['\n'] + line);
    assert(tree_versions(first, package) + seq![version] =~= tree_versions(first, package).push(
        version,
    ));
}

proof fn lemma_run_end_bounds(line: Seq<char>, from: int)
    requires
        0 <= from <= line.len(),
    ensures
        from <= version_run_end(line, from) <= line.len(),
    decreases line.len() - from,
{
    if from < line.len() && is_version_char(line[from]) {
        lemma_run_end_bounds(line, from + 1);
    }
}

proof fn lemma_rightmost_start(line: Seq<char>, package: Seq<char>, k: int) -> (start: int)
    requires
        tree_version_before(line, package, k) is Some,
    ensures
        0 <= start < k,
        tree_version_at(line, package, start) == tree_version_before(line, package, k),
        forall|s: int| start < s < k ==> #[trigger] tree_version_at(line, package, s) is None,
    decreases k,
{
    if tree_version_at(line, package, k - 1) is Some {
        k - 1
    } else {
        lemma_rightmost_start(line, package, k - 1)
    }
}

/// What a line of `cargo tree` output gives for a package: at some place the
/// line holds the name, ` v` and the version text, which ends the line or is
/// followed by white space or `(`; the name starts the line or follows a
/// character that is neither a word character nor `-`; and no later place
/// on the line gives a version (the last mention counts).
pub proof fn law_tree_version_shape(line: Seq<char>, package: Seq<char>, version: Seq<char>)
    requires
        tree_version(line, package) == Some(version),
    ensures
        is_version_text(version),
        exists|start: int|
            #![trigger tree_version_at(line, package, start)]
            {
                let m = package.len() as int;
                let end = start + m + 2 + version.len();
                &&& 0 <= start
                &&& end <= line.len()
                &&& line.subrange(start, start + m) == package
                &&& line[start + m] == ' '
                &&& line[start + m + 1] == 'v'
                &&& tree_version_at(line, package, start) == Some(version)
                &&& line.subrange(start + m + 2, end) == version
                &&& end == line.len() || is_unicode_whitespace(line[end]) || line[end] == '('
                &&& start == 0 || (line[start - 1] != '-' && !unicode_word_char(line[start - 1]))
                &&& forall|s: int|
                    start < s < line.len() ==> #[trigger] tree_version_at(line, package, s) is None
            },
{
    let start = lemma_rightmost_start(line, package, line.len() as int);
    let m = package.len() as int;
    let from = start + m + 2;
    let end = version_run_end(line, from);
    lemma_run_end_bounds(line, from);
    assert(line.subrange(from, end) == version);
    assert(end == start + m + 2 + version.len());
    assert(line.subrange(start + m + 2, start + m + 2 + version.len()) == version);
}

} // verus!
