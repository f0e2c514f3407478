//! Version texts, and SemVer versions and requirements.

use vstd::prelude::*;

use crate::text::{find_first, first_index};

verus! {

pub open spec fn is_ascii_digit(c: char) -> bool {
    '0' <= c && c <= '9'
}

/// `0-9`, `A-Z`, `a-z`, `.` and `-`: the characters of a pre-release or build part.
pub open spec fn is_identifier_char(c: char) -> bool {
    ||| is_ascii_digit(c)
    ||| ('A' <= c && c <= 'Z')
    ||| ('a' <= c && c <= 'z')
    ||| c == '.'
    ||| c == '-'
}

/// A non-empty run of ASCII digits.
pub open spec fn is_digits(s: Seq<char>) -> bool {
    s.len() > 0 && forall|i: int| 0 <= i < s.len() ==> is_ascii_digit(#[trigger] s[i])
}

/// A non-empty run of identifier characters.
pub open spec fn is_identifier(s: Seq<char>) -> bool {
    s.len() > 0 && forall|i: int| 0 <= i < s.len() ==> is_identifier_char(#[trigger] s[i])
}

/// The shape of a version in the reports: `major.minor.patch` (three runs of
/// digits), then optionally `-` and a pre-release identifier, then optionally
/// `+` and a build identifier. The first `+` starts the build part, and the
/// first `-` before it starts the pre-release part.
pub open spec fn is_version_text(v: Seq<char>) -> bool {
    let plus = first_index(v, '+');
    let head = v.take(plus);
    let minus = first_index(head, '-');
    let core = head.take(minus);
    let dot1 = first_index(core, '.');
    let rest = core.skip(dot1 + 1);
    let dot2 = first_index(rest, '.');
    &&& dot1 < core.len()
    &&& dot2 < rest.len()
    &&& is_digits(core.take(dot1))
    &&& is_digits(rest.take(dot2))
    &&& is_digits(rest.skip(dot2 + 1))
    &&& (minus < head.len() ==> is_identifier(head.skip(minus + 1)))
    &&& (plus < v.len() ==> is_identifier(v.skip(plus + 1)))
}

/// Whether `v[from..to]` is a run of ASCII digits.
pub fn all_digits(v: &Vec<char>, from: usize, to: usize) -> (r: bool)
    requires
        from <= to <= v@.len(),
    ensures
        r == is_digits(v@.subrange(from as int, to as int)),
{
    if from == to {
        return false;
    }
    let mut i = from;
    while i < to
        invariant
            from <= i <= to <= v@.len(),
            forall|j: int| from <= j < i ==> is_ascii_digit(v@[j]),
        decreases to - i,
    {
        if !('0' <= v[i] && v[i] <= '9') {
            assert(!is_ascii_digit(v@.subrange(from as int, to as int)[i - from]));
            return false;
        }
        i = i + 1;
    }
    assert forall|j: int| 0 <= j < to - from implies is_ascii_digit(
        #[trigger] v@.subrange(from as int, to as int)[j],
    ) by {
        assert(is_ascii_digit(v@[from + j]));
    }
    true
}

/// Whether `v[from..to]` is a run of identifier characters.
pub fn all_identifier(v: &Vec<char>, from: usize, to: usize) -> (r: bool)
    requires
        from <= to <= v@.len(),
    ensures
        r == is_identifier(v@.subrange(from as int, to as int)),
{
    if from == to {
        return false;
    }
    let mut i = from;
    while i < to
        invariant
            from <= i <= to <= v@.len(),
            forall|j: int| from <= j < i ==> is_identifier_char(v@[j]),
        decreases to - i,
    {
        let c = v[i];
        if !(('0' <= c && c <= '9') || ('A' <= c && c <= 'Z') || ('a' <= c && c <= 'z') || c == '.'
            || c == '-') {
            assert(!is_identifier_char(v@.subrange(from as int, to as int)[i - from]));
            return false;
        }
        i = i + 1;
    }
    assert forall|j: int| 0 <= j < to - from implies is_identifier_char(
        #[trigger] v@.subrange(from as int, to as int)[j],
    ) by {
        assert(is_identifier_char(v@[from + j]));
    }
    true
}

/// Whether `v[from..to]` has the shape of a version (see `is_version_text`).
pub fn is_version_range(v: &Vec<char>, from: usize, to: usize) -> (r: bool)
    requires
        from <= to <= v@.len(),
    ensures
        r == is_version_text(v@.subrange(from as int, to as int)),
{
    let ghost s = v@.subrange(from as int, to as int);
    let plus = find_first(v, from, to, '+');
    assert(s.take(plus - from) =~= v@.subrange(from as int, plus as int));
    let minus = find_first(v, from, plus, '-');
    assert(s.take(plus - from).take(minus - from) =~= v@.subrange(from as int, minus as int));
    let dot1 = find_first(v, from, minus, '.');
    if dot1 == minus {
        return false;
    }
    assert(v@.subrange(from as int, minus as int).skip(dot1 - from + 1) =~= v@.subrange(
        dot1 + 1,
        minus as int,
    ));
    let dot2 = find_first(v, dot1 + 1, minus, '.');
    if dot2 == minus {
        return false;
    }
    assert(v@.subrange(from as int, minus as int).take(dot1 - from) =~= v@.subrange(
        from as int,
        dot1 as int,
    ));
    assert(v@.subrange(dot1 + 1, minus as int).take(dot2 - dot1 - 1) =~= v@.subrange(
        dot1 + 1,
        dot2 as int,
    ));
    assert(v@.subrange(dot1 + 1, minus as int).skip(dot2 - dot1) =~= v@.subrange(
        dot2 + 1,
        minus as int,
    ));
    if minus < plus {
        assert(v@.subrange(from as int, plus as int).skip(minus - from + 1) =~= v@.subrange(
            minus + 1,
            plus as int,
        ));
    }
    if plus < to {
        assert(s.skip(plus - from + 1) =~= v@.subrange(plus + 1, to as int));
    }
    let core_ok = all_digits(v, from, dot1) && all_digits(v, dot1 + 1, dot2) && all_digits(
        v,
        dot2 + 1,
        minus,
    );
    let pre_ok = minus == plus || all_identifier(v, minus + 1, plus);
    let build_ok = plus == to || all_identifier(v, plus + 1, to);
    core_ok && pre_ok && build_ok
}

} // verus!

verus! {

/// `k` is the first position in `texts` that SemVer does not accept as a version.
pub open spec fn first_unparsable(texts: Seq<Seq<char>>, k: int) -> bool {
    &&& 0 <= k < texts.len()
    &&& !semver_version_parses(texts[k])
    &&& forall|j: int| 0 <= j < k ==> semver_version_parses(#[trigger] texts[j])
}

/// Whether SemVer accepts every text in `texts` as a version.
pub open spec fn all_parse(texts: Seq<Seq<char>>) -> bool {
    forall|j: int| 0 <= j < texts.len() ==> semver_version_parses(#[trigger] texts[j])
}

/// `semver::Version`, carried as it is: nothing inside it is read.
#[verifier::external_type_specification]
#[verifier::external_body]
pub struct ExSemverVersion(semver::Version);

/// `semver::VersionReq`, carried as it is: nothing inside it is read.
#[verifier::external_type_specification]
#[verifier::external_body]
pub struct ExSemverVersionReq(semver::VersionReq);

/// `semver::Error`, the reason a text is not a version or requirement.
#[verifier::external_type_specification]
#[verifier::external_body]
pub struct ExSemverError(semver::Error);

/// What `semver::Version::parse` returns for `text`.
pub uninterp spec fn semver_version_parse(text: Seq<char>) -> Result<semver::Version, semver::Error>;

/// What `semver::VersionReq::parse` returns for `text`.
pub uninterp spec fn semver_req_parse(text: Seq<char>) -> Result<semver::VersionReq, semver::Error>;

/// What `semver::VersionReq::matches` answers for `req` and `version`.
pub uninterp spec fn semver_req_matches_value(req: semver::VersionReq, version: semver::Version) -> bool;

/// Whether SemVer accepts `text` as a version.
pub open spec fn semver_version_parses(text: Seq<char>) -> bool {
    semver_version_parse(text) is Ok
}

/// Whether SemVer accepts `text` as a version requirement.
pub open spec fn semver_req_parses(text: Seq<char>) -> bool {
    semver_req_parse(text) is Ok
}

/// Whether the requirement parsed from `req` matches the version parsed
/// from `version`; false where either text does not parse.
pub open spec fn semver_req_matches(req: Seq<char>, version: Seq<char>) -> bool {
    match (semver_req_parse(req), semver_version_parse(version)) {
        (Ok(r), Ok(v)) => semver_req_matches_value(r, v),
        _ => false,
    }
}

/// `e` is the error of parsing `text` as a version: its text, and the reason
/// that `semver::Version::parse` gives.
pub open spec fn is_version_error(e: VersionError, text: Seq<char>) -> bool {
    e.text@ == text && semver_version_parse(text) == Err::<semver::Version, semver::Error>(e.cause)
}

/// `e` is the error of parsing `text` as a requirement: its text, and the
/// reason that `semver::VersionReq::parse` gives.
pub open spec fn is_req_error(e: VersionError, text: Seq<char>) -> bool {
    e.text@ == text && semver_req_parse(text) == Err::<semver::VersionReq, semver::Error>(e.cause)
}

/// Calls `semver::Version::parse`. Trusted: it returns
/// `semver_version_parse` of the text, which depends on the text alone.
#[verifier::external_body]
fn semver_parse_version(text: &str) -> (res: Result<semver::Version, semver::Error>)
    ensures
        res == semver_version_parse(text@),
{
    semver::Version::parse(text)
}

/// Calls `semver::VersionReq::parse`. Trusted: it returns
/// `semver_req_parse` of the text, which depends on the text alone.
#[verifier::external_body]
fn semver_parse_req(text: &str) -> (res: Result<semver::VersionReq, semver::Error>)
    ensures
        res == semver_req_parse(text@),
{
    semver::VersionReq::parse(text)
}

/// Calls `semver::VersionReq::matches`. Trusted: it answers
/// `semver_req_matches_value` of the two values, which depends on them alone.
#[verifier::external_body]
fn semver_matches(req: &semver::VersionReq, version: &semver::Version) -> (r: bool)
    ensures
        r == semver_req_matches_value(*req, *version),
{
    req.matches(version)
}

/// A SemVer version, kept with the text it was parsed from.
#[derive(Debug, PartialEq, Eq)]
pub struct PackageVersion {
    text: String,
    inner: semver::Version,
}

/// A SemVer version requirement (such as `^4.0` or `>=5.0.0`), kept with the
/// text it was parsed from.
#[derive(Debug, PartialEq, Eq)]
pub struct Requirement {
    text: String,
    inner: semver::VersionReq,
}

/// A text that is not a SemVer version (or requirement), with the reason
/// that `semver` gives.
#[derive(Debug)]
pub struct VersionError {
    pub text: String,
    pub cause: semver::Error,
}

impl View for PackageVersion {
    type V = Seq<char>;

    closed spec fn view(&self) -> Seq<char> {
        self.text@
    }
}

impl View for Requirement {
    type V = Seq<char>;

    closed spec fn view(&self) -> Seq<char> {
        self.text@
    }
}

impl PackageVersion {
    #[verifier::type_invariant]
    closed spec fn well_formed(self) -> bool {
        semver_version_parse(self.text@) == Ok::<semver::Version, semver::Error>(self.inner)
    }

    /// Parses a SemVer version such as `1.2.3-rc.1+sha.123`.
    pub fn parse(text: &str) -> (res: Result<PackageVersion, VersionError>)
        ensures
            res is Ok <==> semver_version_parses(text@),
            res matches Ok(v) ==> v@ == text@,
            res matches Err(e) ==> is_version_error(e, text@),
    {
        match semver_parse_version(text) {
            Ok(inner) => Ok(PackageVersion { text: text.to_owned(), inner }),
            Err(cause) => Err(VersionError { text: text.to_owned(), cause }),
        }
    }

    /// The text the version was parsed from.
    pub fn as_str(&self) -> (s: &str)
        ensures
            s@ == self@,
    {
        self.text.as_str()
    }
}

impl Requirement {
    #[verifier::type_invariant]
    closed spec fn well_formed(self) -> bool {
        semver_req_parse(self.text@) == Ok::<semver::VersionReq, semver::Error>(self.inner)
    }

    /// Parses a SemVer requirement such as `^1.12` or `>=2.0.0`.
    pub fn parse(text: &str) -> (res: Result<Requirement, VersionError>)
        ensures
            res is Ok <==> semver_req_parses(text@),
            res matches Ok(r) ==> r@ == text@,
            res matches Err(e) ==> is_req_error(e, text@),
    {
        match semver_parse_req(text) {
            Ok(inner) => Ok(Requirement { text: text.to_owned(), inner }),
            Err(cause) => Err(VersionError { text: text.to_owned(), cause }),
        }
    }

    /// Whether `version` satisfies this requirement.
    pub fn matches(&self, version: &PackageVersion) -> (r: bool)
        ensures
            r == semver_req_matches(self@, version@),
    {
        proof {
            use_type_invariant(self);
            use_type_invariant(version);
        }
        semver_matches(&self.inner, &version.inner)
    }

    /// The text the requirement was parsed from.
    pub fn as_str(&self) -> (s: &str)
        ensures
            s@ == self@,
    {
        self.text.as_str()
    }
}

} // verus!

verus! {

/// The views of `texts`.
pub open spec fn texts_view(texts: Seq<String>) -> Seq<Seq<char>> {
    texts.map_values(|s: String| s@)
}

/// Parses each of `texts` as a SemVer version, in order; an error for the
/// first that is not one.
pub fn parse_all(texts: &Vec<String>) -> (res: Result<Vec<PackageVersion>, VersionError>)
    ensures
        res is Ok <==> all_parse(texts_view(texts@)),
        res matches Ok(vs) ==> {
            &&& vs@.len() == texts@.len()
            &&& forall|i: int| 0 <= i < texts@.len() ==> (#[trigger] vs@[i])@ == texts@[i]@
        },
        res matches Err(e) ==> exists|k: int|
            first_unparsable(texts_view(texts@), k) && is_version_error(e, texts@[k]@),
{
    let ghost views = texts_view(texts@);
    let mut out: Vec<PackageVersion> = Vec::new();
    let mut i: usize = 0;
    while i < texts.len()
        invariant
            views == texts_view(texts@),
            i <= texts@.len(),
            out@.len() == i,
            forall|j: int| 0 <= j < i ==> (#[trigger] out@[j])@ == texts@[j]@,
            forall|j: int| 0 <= j < i ==> semver_version_parses(#[trigger] views[j]),
        decreases texts@.len() - i,
    {
        match PackageVersion::parse(texts[i].as_str()) {
            Ok(v) => {
                out.push(v);
            },
            Err(e) => {
                assert(first_unparsable(views, i as int));
                assert(!all_parse(views));
                return Err(e);
            },
        }
        i = i + 1;
    }
    Ok(out)
}

} // verus!

verus! {

/// `x.y.z`, then `-pre` where `pre` is not empty, then `+build` where `build`
/// is not empty.
pub open spec fn version_from_parts(
    x: Seq<char>,
    y: Seq<char>,
    z: Seq<char>,
    pre: Seq<char>,
    build: Seq<char>,
) -> Seq<char> {
    x + seq!['.'] + y + seq!['.'] + z + (if pre.len() > 0 {
        seq!['-'] + pre
    } else {
        Seq::empty()
    }) + (if build.len() > 0 {
        seq!['+'] + build
    } else {
        Seq::empty()
    })
}

/// `x`, `y`, `z` are non-empty runs of the digits `0` to `9`, and `pre` and
/// `build` are made of `0-9`, `A-Z`, `a-z`, `.` and `-`.
pub open spec fn version_parts(
    x: Seq<char>,
    y: Seq<char>,
    z: Seq<char>,
    pre: Seq<char>,
    build: Seq<char>,
) -> bool {
    &&& x.len() > 0
    &&& y.len() > 0
    &&& z.len() > 0
    &&& forall|i: int| 0 <= i < x.len() ==> '0' <= #[trigger] x[i] <= '9'
    &&& forall|i: int| 0 <= i < y.len() ==> '0' <= #[trigger] y[i] <= '9'
    &&& forall|i: int| 0 <= i < z.len() ==> '0' <= #[trigger] z[i] <= '9'
    &&& forall|i: int|
        0 <= i < pre.len() ==> {
            let c = #[trigger] pre[i];
            ('0' <= c <= '9') || ('A' <= c <= 'Z') || ('a' <= c <= 'z') || c == '.' || c == '-'
        }
    &&& forall|i: int|
        0 <= i < build.len() ==> {
            let c = #[trigger] build[i];
            ('0' <= c <= '9') || ('A' <= c <= 'Z') || ('a' <= c <= 'z') || c == '.' || c == '-'
        }
}

/// Every text `x.y.z[-pre][+build]` whose `x`, `y`, `z` are non-empty runs of
/// the digits `0` to `9`, and whose `pre` and `build` are made of `0-9`,
/// `A-Z`, `a-z`, `.` and `-`, has the shape of a version.
pub proof fn law_version_text_from_parts(
    x: Seq<char>,
    y: Seq<char>,
    z: Seq<char>,
    pre: Seq<char>,
    build: Seq<char>,
)
    requires
        version_parts(x, y, z, pre, build),
    ensures
        is_version_text(version_from_parts(x, y, z, pre, build)),
{
    let v = version_from_parts(x, y, z, pre, build);
    let rest0 = y + seq!['.'] + z;
    let core = x + seq!['.'] + rest0;
    let pp = if pre.len() > 0 {
        seq!['-'] + pre
    } else {
        Seq::<char>::empty()
    };
    let bp = if build.len() > 0 {
        seq!['+'] + build
    } else {
        Seq::<char>::empty()
    };
    assert(v =~= core + pp + bp);
    let head = core + pp;
    assert forall|j: int| 0 <= j < core.len() implies core[j] != '+' && core[j] != '-' && (j
        < x.len() ==> core[j] != '.') by {
        if j < x.len() {
            assert(core[j] == x[j]);
        } else if j > x.len() {
            assert(core[j] == rest0[j - x.len() - 1]);
            if j - x.len() - 1 < y.len() {
                assert(rest0[j - x.len() - 1] == y[j - x.len() - 1]);
            } else if j - x.len() - 1 > y.len() {
                assert(rest0[j - x.len() - 1] == z[j - x.len() - 2 - y.len()]);
            }
        }
    }
    assert forall|j: int| 0 <= j < head.len() implies head[j] != '+' by {
        if j < core.len() {
            assert(head[j] == core[j]);
        } else {
            assert(head[j] == pp[j - core.len()]);
            if j > core.len() {
                assert(pp[j - core.len()] == pre[j - core.len() - 1]);
            }
        }
    }
    let plus = head.len() as int;
    if build.len() > 0 {
        assert(v[plus] == '+');
    } else {
        assert(v =~= head);
    }
    crate::text::lemma_first_index(v, '+', plus);
    assert(v.take(plus) =~= head);
    let minus = core.len() as int;
    if pre.len() > 0 {
        assert(head[minus] == '-');
    } else {
        assert(head =~= core);
    }
    crate::text::lemma_first_index(head, '-', minus);
    assert(head.take(minus) =~= core);
    assert(core[x.len() as int] == '.');
    crate::text::lemma_first_index(core, '.', x.len() as int);
    assert(core.skip(x.len() as int + 1) =~= rest0);
    assert(core.take(x.len() as int) =~= x);
    assert forall|j: int| 0 <= j < y.len() implies rest0[j] != '.' by {
        assert(rest0[j] == y[j]);
    }
    assert(rest0[y.len() as int] == '.');
    crate::text::lemma_first_index(rest0, '.', y.len() as int);
    assert(rest0.take(y.len() as int) =~= y);
    assert(rest0.skip(y.len() as int + 1) =~= z);
    if pre.len() > 0 {
        assert(head.skip(minus + 1) =~= pre);
    }
    if build.len() > 0 {
        assert(v.skip(plus + 1) =~= build);
    }
}

/// Only such texts have the shape of a version: each is
/// `x.y.z[-pre][+build]` for parts as `version_parts` describes.
pub proof fn law_version_text_parts(v: Seq<char>)
    requires
        is_version_text(v),
    ensures
        exists|x: Seq<char>, y: Seq<char>, z: Seq<char>, pre: Seq<char>, build: Seq<char>|
            version_parts(x, y, z, pre, build) && v == #[trigger] version_from_parts(
                x,
                y,
                z,
                pre,
                build,
            ),
{
    let plus = first_index(v, '+');
    let head = v.take(plus);
    let minus = first_index(head, '-');
    let core = head.take(minus);
    let dot1 = first_index(core, '.');
    let rest = core.skip(dot1 + 1);
    let dot2 = first_index(rest, '.');
    crate::text::lemma_first_index_hit(v, '+');
    crate::text::lemma_first_index_hit(head, '-');
    crate::text::lemma_first_index_hit(core, '.');
    crate::text::lemma_first_index_hit(rest, '.');
    let x = core.take(dot1);
    let y = rest.take(dot2);
    let z = rest.skip(dot2 + 1);
    let pre = if minus < head.len() {
        head.skip(minus + 1)
    } else {
        Seq::<char>::empty()
    };
    let build = if plus < v.len() {
        v.skip(plus + 1)
    } else {
        Seq::<char>::empty()
    };
    crate::text::lemma_split_at(rest, dot2);
    crate::text::lemma_split_at(core, dot1);
    if minus < head.len() {
        crate::text::lemma_split_at(head, minus);
        assert(head.take(minus) == core);
    } else {
        assert(head =~= core);
    }
    if plus < v.len() {
        crate::text::lemma_split_at(v, plus);
        assert(v.take(plus) == head);
    } else {
        assert(v =~= head);
    }
    assert(v =~= version_from_parts(x, y, z, pre, build));
    assert(version_parts(x, y, z, pre, build));
}

/// A version text is made of `0-9`, `A-Z`, `a-z`, `.`, `-` and `+` alone (so
/// it holds no space, quote, `@` or line break).
pub proof fn law_version_text_chars(v: Seq<char>)
    requires
        is_version_text(v),
    ensures
        forall|i: int|
            0 <= i < v.len() ==> {
                let c = #[trigger] v[i];
                ('0' <= c <= '9') || ('A' <= c <= 'Z') || ('a' <= c <= 'z') || c == '.' || c == '-'
                    || c == '+'
            },
{
    law_version_text_parts(v);
    let (x, y, z, pre, build) = choose|
        x: Seq<char>,
        y: Seq<char>,
        z: Seq<char>,
        pre: Seq<char>,
        build: Seq<char>,
    |
        version_parts(x, y, z, pre, build) && v == #[trigger] version_from_parts(
            x,
            y,
            z,
            pre,
            build,
        );
    let core = x + seq!['.'] + y + seq!['.'] + z;
    let pp = if pre.len() > 0 {
        seq!['-'] + pre
    } else {
        Seq::<char>::empty()
    };
    let bp = if build.len() > 0 {
        seq!['+'] + build
    } else {
        Seq::<char>::empty()
    };
    assert(v =~= core + pp + bp);
    assert forall|i: int| 0 <= i < v.len() implies {
        let c = #[trigger] v[i];
        ('0' <= c <= '9') || ('A' <= c <= 'Z') || ('a' <= c <= 'z') || c == '.' || c == '-' || c
            == '+'
    } by {
        let a = x.len() as int;
        let b = a + 1 + y.len();
        if i < core.len() {
            assert(v[i] == core[i]);
            if i < a {
                assert(core[i] == x[i]);
            } else if a < i < b {
                assert(core[i] == y[i - a - 1]);
            } else if i > b {
                assert(core[i] == z[i - b - 1]);
            }
        } else if i < core.len() + pp.len() {
            assert(v[i] == pp[i - core.len()]);
            if i > core.len() {
                assert(pp[i - core.len()] == pre[i - core.len() - 1]);
            }
        } else {
            let k = i - core.len() - pp.len();
            assert(v[i] == bp[k]);
            if k > 0 {
                assert(bp[k] == build[k - 1]);
            }
        }
    }
}

} // verus!
