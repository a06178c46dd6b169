//! Maven coordinates of a published file, read from its path
//! `group.../artifact/version/file`.
use vstd::prelude::*;
use crate::clock::{civil_of, civil_time, now_millis, utc_fields, CivilTime, MAX_RFC2822_MILLIS, MIN_RFC2822_MILLIS};
use crate::maven_metadata::{opt_view, MavenMetadata, Snapshot, SnapshotVersion, SnapshotVersions, Versioning, Versions};
use crate::text::{
    find_char, first_index, is_prefix, is_suffix, last_index, lemma_first_index, lemma_last_index, rfind_char,
    split_char, split_seq, str_eq, strip_prefix, strip_suffix, strs,
};

verus! {

#[derive(Clone, Debug)]
pub struct SnapshotInfo {
    pub timestamp: String,
    pub build_number: u64,
}

#[derive(Clone, Debug)]
pub struct PathInfo {
    pub group: Vec<String>,
    pub artifact: String,
    /// The version, without a `-SNAPSHOT` suffix.
    pub version: String,
    pub snapshot: Option<SnapshotInfo>,
    pub classifier: Option<String>,
    pub extension: Option<String>,
}

/// What a path says of a file's coordinates.
pub struct PathInfoView {
    pub group: Seq<Seq<char>>,
    pub artifact: Seq<char>,
    pub version: Seq<char>,
    pub snapshot: Option<(Seq<char>, u64)>,
    pub classifier: Option<Seq<char>>,
    pub extension: Option<Seq<char>>,
}

/// Why a path does not name a publishable file.
#[derive(Clone, Copy, Debug, PartialEq, Eq, Structural)]
pub enum PathError {
    /// A component is `..`, or the path is absolute.
    BadRequestPath,
    MissingFileName,
    MissingVersion,
    MissingArtifact,
    MissingGroup,
    /// The file name does not begin with `<artifact>-`.
    NoArtifactPrefix,
    /// The file name does not continue with the version.
    NoVersion,
    /// A snapshot file name lacks its timestamp.
    NoSnapshotTimestamp,
    /// A snapshot build number is not a decimal number that fits 64 bits.
    BadBuildNumber,
}

impl PathError {
    /// The response status: always 400.
    pub fn status(self) -> (r: u16)
        ensures
            r == 400,
    {
        400
    }
}

pub open spec fn opt_str_view(o: Option<String>) -> Option<Seq<char>> {
    match o {
        Some(s) => Some(s@),
        None => None,
    }
}

impl View for PathInfo {
    type V = PathInfoView;

    open spec fn view(&self) -> PathInfoView {
        PathInfoView {
            group: strs(self.group@),
            artifact: self.artifact@,
            version: self.version@,
            snapshot: match self.snapshot {
                Some(s) => Some((s.timestamp@, s.build_number)),
                None => None,
            },
            classifier: opt_str_view(self.classifier),
            extension: opt_str_view(self.extension),
        }
    }
}

/// The path components that count: empty ones and `.` are skipped; `..` makes the path invalid.
pub open spec fn keep_components(pieces: Seq<Seq<char>>) -> Option<Seq<Seq<char>>>
    decreases pieces.len(),
{
    if pieces.len() == 0 {
        Some(Seq::empty())
    } else {
        match keep_components(pieces.drop_last()) {
            None => None,
            Some(r) => {
                let p = pieces.last();
                if p == seq!['.', '.'] {
                    None
                } else if p.len() == 0 || p == seq!['.'] {
                    Some(r)
                } else {
                    Some(r.push(p))
                }
            },
        }
    }
}

/// The components of a relative path, or `None` for an absolute path or one with `..`.
pub open spec fn path_components(path: Seq<char>) -> Option<Seq<Seq<char>>> {
    if path.len() > 0 && path[0] == '/' {
        None
    } else {
        keep_components(split_seq(path, '/'))
    }
}

pub open spec fn digit_value(c: char) -> nat {
    ((c as int) - ('0' as int)) as nat
}

pub open spec fn is_digit(c: char) -> bool {
    '0' <= c && c <= '9'
}

/// The value of a string of decimal digits.
pub open spec fn decimal_value(s: Seq<char>) -> nat
    decreases s.len(),
{
    if s.len() == 0 {
        0
    } else {
        decimal_value(s.drop_last()) * 10 + digit_value(s.last())
    }
}

/// A non-empty run of decimal digits whose value fits 64 bits.
pub open spec fn decimal_u64(s: Seq<char>) -> Option<u64> {
    if s.len() > 0 && (forall|i: int| 0 <= i < s.len() ==> is_digit(#[trigger] s[i])) && decimal_value(s)
        <= u64::MAX {
        Some(decimal_value(s) as u64)
    } else {
        None
    }
}

/// `-SNAPSHOT`.
pub open spec fn snapshot_suffix() -> Seq<char> {
    seq!['-', 'S', 'N', 'A', 'P', 'S', 'H', 'O', 'T']
}

/// A non-empty text, or none.
pub open spec fn non_empty(s: Seq<char>) -> Option<Seq<char>> {
    if s.len() > 0 {
        Some(s)
    } else {
        None
    }
}

/// Reads the tail of a snapshot file name after `<artifact>-<version>-`:
/// `<timestamp>-<build>[-<classifier>]`.
pub open spec fn snapshot_tail(rest: Seq<char>) -> Result<((Seq<char>, u64), Option<Seq<char>>), PathError> {
    match first_index(rest, '-') {
        None => Err(PathError::NoSnapshotTimestamp),
        Some(i) => {
            let timestamp = rest.subrange(0, i);
            let tail = rest.subrange(i + 1, rest.len() as int);
            let (build, classifier) = match first_index(tail, '-') {
                Some(j) => (tail.subrange(0, j), tail.subrange(j + 1, tail.len() as int)),
                None => (tail, Seq::empty()),
            };
            match decimal_u64(build) {
                None => Err(PathError::BadBuildNumber),
                Some(b) => Ok(((timestamp, b), non_empty(classifier))),
            }
        },
    }
}

/// Reads the coordinates of a file from its path: the last component is the
/// file name, then come the version and the artifact, and the components
/// before them form the group. The file name is `<artifact>-<version>`,
/// for a snapshot followed by `-<timestamp>-<build>`, then an optional
/// `-<classifier>` and an optional `.<extension>` after the last dot.
pub open spec fn parse_spec(path: Seq<char>) -> Result<PathInfoView, PathError> {
    match path_components(path) {
        None => Err(PathError::BadRequestPath),
        Some(cs) => {
            let n = cs.len();
            if n < 1 {
                Err(PathError::MissingFileName)
            } else if n < 2 {
                Err(PathError::MissingVersion)
            } else if n < 3 {
                Err(PathError::MissingArtifact)
            } else if n < 4 {
                Err(PathError::MissingGroup)
            } else {
                let file = cs[n - 1];
                let version_full = cs[n - 2];
                let artifact = cs[n - 3];
                let group = cs.subrange(0, n - 3);
                let (stem, extension) = match last_index(file, '.') {
                    Some(i) => (file.subrange(0, i), Some(file.subrange(i + 1, file.len() as int))),
                    None => (file, None),
                };
                let lead = artifact.push('-');
                if !is_prefix(lead, stem) {
                    Err(PathError::NoArtifactPrefix)
                } else {
                    let rest1 = stem.subrange(lead.len() as int, stem.len() as int);
                    let snap = is_suffix(snapshot_suffix(), version_full);
                    let version = if snap {
                        version_full.subrange(0, version_full.len() - 9)
                    } else {
                        version_full
                    };
                    if !is_prefix(version, rest1) {
                        Err(PathError::NoVersion)
                    } else {
                        let rest2 = rest1.subrange(version.len() as int, rest1.len() as int);
                        if !snap && rest2.len() == 0 {
                            Ok(
                                PathInfoView {
                                    group,
                                    artifact,
                                    version,
                                    snapshot: None,
                                    classifier: None,
                                    extension,
                                },
                            )
                        } else if rest2.len() == 0 || rest2[0] != '-' {
                            Err(PathError::NoVersion)
                        } else {
                            let rest3 = rest2.drop_first();
                            if !snap {
                                Ok(
                                    PathInfoView {
                                        group,
                                        artifact,
                                        version,
                                        snapshot: None,
                                        classifier: non_empty(rest3),
                                        extension,
                                    },
                                )
                            } else {
                                match snapshot_tail(rest3) {
                                    Err(e) => Err(e),
                                    Ok((s, classifier)) => Ok(
                                        PathInfoView {
                                            group,
                                            artifact,
                                            version,
                                            snapshot: Some(s),
                                            classifier,
                                            extension,
                                        },
                                    ),
                                }
                            }
                        }
                    }
                }
            }
        },
    }
}

/// The group joined with dots, as `PathInfo::dotted_group` builds it.
pub open spec fn join_dotted(group: Seq<Seq<char>>) -> Seq<char>
    decreases group.len(),
{
    if group.len() == 0 {
        Seq::empty()
    } else {
        let acc = join_dotted(group.drop_last());
        if acc.len() > 0 {
            acc.push('.') + group.last()
        } else {
            group.last()
        }
    }
}

proof fn lemma_decimal_prefix(s: Seq<char>, k: int)
    requires
        0 <= k <= s.len(),
    ensures
        decimal_value(s) >= decimal_value(s.subrange(0, k)),
    decreases s.len(),
{
    if k == s.len() {
        assert(s.subrange(0, k) =~= s);
    } else {
        assert(s.drop_last().subrange(0, k) =~= s.subrange(0, k));
        lemma_decimal_prefix(s.drop_last(), k);
    }
}

/// Reads a non-empty run of decimal digits that fits 64 bits.
pub fn parse_decimal(s: &str) -> (r: Option<u64>)
    ensures
        r == decimal_u64(s@),
{
    let n = s.unicode_len();
    if n == 0 {
        return None;
    }
    let mut v: u64 = 0;
    let mut i: usize = 0;
    assert(s@.subrange(0, 0) =~= Seq::<char>::empty());
    while i < n
        invariant
            n == s@.len(),
            i <= n,
            forall|j: int| 0 <= j < i ==> is_digit(#[trigger] s@[j]),
            v as nat == decimal_value(s@.subrange(0, i as int)),
        decreases n - i,
    {
        let c = s.get_char(i);
        if !('0' <= c && c <= '9') {
            assert(!is_digit(s@[i as int]));
            return None;
        }
        let d = (c as u32 - '0' as u32) as u64;
        assert(s@.subrange(0, i + 1).drop_last() =~= s@.subrange(0, i as int));
        assert(decimal_value(s@.subrange(0, i + 1)) == decimal_value(s@.subrange(0, i as int)) * 10 + d);
        if v > (u64::MAX - d) / 10 {
            proof {
                lemma_decimal_prefix(s@, i + 1);
                assert(v * 10 + d > u64::MAX) by (nonlinear_arith)
                    requires
                        v > (u64::MAX - d) / 10,
                        d <= 9,
                ;
            }
            return None;
        }
        assert(v * 10 + d <= u64::MAX) by (nonlinear_arith)
            requires
                v <= (u64::MAX - d) / 10,
                d <= 9,
        ;
        v = v * 10 + d;
        i += 1;
    }
    assert(s@.subrange(0, n as int) =~= s@);
    Some(v)
}

/// The components that count of a relative path.
pub fn components(path: &str) -> (r: Option<Vec<String>>)
    ensures
        match r {
            Some(v) => path_components(path@) == Some(strs(v@)),
            None => path_components(path@) is None,
        },
{
    if path.unicode_len() > 0 && path.get_char(0) == '/' {
        return None;
    }
    let pieces = split_char(path, '/');
    let ghost all = split_seq(path@, '/');
    let mut out: Vec<String> = Vec::new();
    let mut i: usize = 0;
    assert(all.subrange(0, 0) =~= Seq::<Seq<char>>::empty());
    assert(strs(out@) =~= Seq::<Seq<char>>::empty());
    while i < pieces.len()
        invariant
            i <= pieces@.len(),
            all == split_seq(path@, '/'),
            strs(pieces@) == all,
            !(path@.len() > 0 && path@[0] == '/'),
            keep_components(all.subrange(0, i as int)) == Some(strs(out@)),
        decreases pieces.len() - i,
    {
        let ghost pre = all.subrange(0, i as int);
        assert(all.subrange(0, i + 1).drop_last() =~= pre);
        assert(all.subrange(0, i + 1).last() == pieces@[i as int]@);
        let p = pieces[i].as_str();
        proof {
            reveal_strlit("..");
            reveal_strlit(".");
        }
        assert(".."@ =~= seq!['.', '.']);
        assert("."@ =~= seq!['.']);
        if str_eq(p, "..") {
            proof {
                lemma_keep_prefix_none(all, i + 1);
            }
            return None;
        }
        if p.unicode_len() > 0 && !str_eq(p, ".") {
            let ghost before = strs(out@);
            out.push(p.to_owned());
            assert(strs(out@) =~= before.push(p@));
        }
        i += 1;
    }
    assert(all.subrange(0, i as int) =~= all);
    Some(out)
}

proof fn lemma_keep_prefix_none(pieces: Seq<Seq<char>>, k: int)
    requires
        0 <= k <= pieces.len(),
        keep_components(pieces.subrange(0, k)) is None,
    ensures
        keep_components(pieces) is None,
    decreases pieces.len() - k,
{
    if k < pieces.len() {
        assert(pieces.subrange(0, k + 1).drop_last() =~= pieces.subrange(0, k));
        lemma_keep_prefix_none(pieces, k + 1);
    } else {
        assert(pieces.subrange(0, k) =~= pieces);
    }
}

/// Splits at the first `-`: the text before it and the text after it.
fn split_dash<'a>(s: &'a str) -> (r: Option<(&'a str, &'a str)>)
    ensures
        match r {
            Some((a, b)) => first_index(s@, '-') matches Some(i) && a@ == s@.subrange(0, i) && b@ == s@.subrange(
                i + 1,
                s@.len() as int,
            ),
            None => first_index(s@, '-') is None,
        },
{
    proof {
        lemma_first_index(s@, '-');
    }
    match find_char(s, '-') {
        Some(i) => {
            let n = s.unicode_len();
            assert(i < n);
            Some((s.substring_char(0, i), s.substring_char(i + 1, n)))
        },
        None => None,
    }
}

fn non_empty_string(s: &str) -> (r: Option<String>)
    ensures
        opt_str_view(r) == non_empty(s@),
{
    if s.unicode_len() > 0 {
        Some(s.to_owned())
    } else {
        None
    }
}

/// Reads `<timestamp>-<build>[-<classifier>]`.
fn parse_snapshot_tail(rest: &str) -> (r: Result<(SnapshotInfo, Option<String>), PathError>)
    ensures
        match r {
            Ok((s, c)) => snapshot_tail(rest@) == Ok::<((Seq<char>, u64), Option<Seq<char>>), PathError>(
                ((s.timestamp@, s.build_number), opt_str_view(c)),
            ),
            Err(e) => snapshot_tail(rest@) == Err::<((Seq<char>, u64), Option<Seq<char>>), PathError>(e),
        },
{
    let (timestamp, tail) = match split_dash(rest) {
        None => {
            return Err(PathError::NoSnapshotTimestamp);
        },
        Some(v) => v,
    };
    let (build, classifier) = match split_dash(tail) {
        Some((b, c)) => (b, c),
        None => (tail, ""),
    };
    proof {
        reveal_strlit("");
    }
    assert(""@ =~= Seq::<char>::empty());
    match parse_decimal(build) {
        None => Err(PathError::BadBuildNumber),
        Some(b) => Ok((SnapshotInfo { timestamp: timestamp.to_owned(), build_number: b }, non_empty_string(classifier))),
    }
}

impl PathInfo {
    /// Reads the coordinates of a file from its path.
    pub fn parse(path: &str) -> (r: Result<PathInfo, PathError>)
        ensures
            match r {
                Ok(p) => parse_spec(path@) == Ok::<PathInfoView, PathError>(p@),
                Err(e) => parse_spec(path@) == Err::<PathInfoView, PathError>(e),
            },
    {
        let cs = match components(path) {
            None => {
                return Err(PathError::BadRequestPath);
            },
            Some(c) => c,
        };
        let ghost csv = strs(cs@);
        let n = cs.len();
        if n < 1 {
            return Err(PathError::MissingFileName);
        }
        if n < 2 {
            return Err(PathError::MissingVersion);
        }
        if n < 3 {
            return Err(PathError::MissingArtifact);
        }
        if n < 4 {
            return Err(PathError::MissingGroup);
        }
        let file = cs[n - 1].as_str();
        let version_full = cs[n - 2].as_str();
        let artifact = cs[n - 3].as_str();
        assert(csv[n - 1] == file@ && csv[n - 2] == version_full@ && csv[n - 3] == artifact@);
        let mut group: Vec<String> = Vec::new();
        let mut g: usize = 0;
        while g < n - 3
            invariant
                n == cs@.len(),
                n >= 4,
                g <= n - 3,
                csv == strs(cs@),
                strs(group@) == csv.subrange(0, g as int),
            decreases n - 3 - g,
        {
            let ghost before = strs(group@);
            group.push(cs[g].clone());
            assert(strs(group@) =~= before.push(csv[g as int]));
            assert(csv.subrange(0, g + 1) =~= csv.subrange(0, g as int).push(csv[g as int]));
            g += 1;
        }
        proof {
            lemma_last_index(file@, '.');
        }
        let (stem, extension) = match rfind_char(file, '.') {
            Some(i) => {
                let n = file.unicode_len();
                assert(i < n);
                (file.substring_char(0, i), Some(file.substring_char(i + 1, n).to_owned()))
            },
            None => (file, None),
        };
        let mut lead = artifact.to_owned();
        proof {
            reveal_strlit("-");
        }
        lead.append("-");
        assert(lead@ =~= artifact@.push('-'));
        let rest1 = match strip_prefix(stem, lead.as_str()) {
            None => {
                return Err(PathError::NoArtifactPrefix);
            },
            Some(r) => r,
        };
        proof {
            reveal_strlit("-SNAPSHOT");
        }
        assert("-SNAPSHOT"@ =~= snapshot_suffix());
        let (version, snap) = match strip_suffix(version_full, "-SNAPSHOT") {
            Some(v) => (v, true),
            None => (version_full, false),
        };
        let rest2 = match strip_prefix(rest1, version) {
            None => {
                return Err(PathError::NoVersion);
            },
            Some(r) => r,
        };
        let r2len = rest2.unicode_len();
        if !snap && r2len == 0 {
            return Ok(
                PathInfo {
                    group,
                    artifact: artifact.to_owned(),
                    version: version.to_owned(),
                    snapshot: None,
                    classifier: None,
                    extension,
                },
            );
        }
        if r2len == 0 || rest2.get_char(0) != '-' {
            return Err(PathError::NoVersion);
        }
        let rest3 = rest2.substring_char(1, r2len);
        assert(rest3@ =~= rest2@.drop_first());
        if !snap {
            return Ok(
                PathInfo {
                    group,
                    artifact: artifact.to_owned(),
                    version: version.to_owned(),
                    snapshot: None,
                    classifier: non_empty_string(rest3),
                    extension,
                },
            );
        }
        match parse_snapshot_tail(rest3) {
            Err(e) => Err(e),
            Ok((s, classifier)) => Ok(
                PathInfo {
                    group,
                    artifact: artifact.to_owned(),
                    version: version.to_owned(),
                    snapshot: Some(s),
                    classifier,
                    extension,
                },
            ),
        }
    }

    /// The group with its components joined by dots.
    pub fn dotted_group(&self) -> (r: String)
        ensures
            r@ == join_dotted(strs(self.group@)),
    {
        let ghost gv = strs(self.group@);
        let mut out = String::new();
        let mut i: usize = 0;
        assert(gv.subrange(0, 0) =~= Seq::<Seq<char>>::empty());
        while i < self.group.len()
            invariant
                i <= self.group@.len(),
                gv == strs(self.group@),
                out@ == join_dotted(gv.subrange(0, i as int)),
            decreases self.group.len() - i,
        {
            assert(gv.subrange(0, i + 1).drop_last() =~= gv.subrange(0, i as int));
            assert(gv.subrange(0, i + 1).last() == self.group@[i as int]@);
            proof {
                reveal_strlit(".");
            }
            assert("."@ =~= seq!['.']);
            if out.as_str().unicode_len() > 0 {
                out.append(".");
            }
            out.append(self.group[i].as_str());
            i += 1;
        }
        assert(gv.subrange(0, i as int) =~= gv);
        out
    }
}

/// The decimal digit character of a value below 10.
pub open spec fn digit_char(d: nat) -> char {
    (('0' as nat) + d) as char
}

/// The decimal text of a number, without leading zeros.
pub open spec fn decimal_text(v: nat) -> Seq<char>
    decreases v,
{
    if v < 10 {
        seq![digit_char(v)]
    } else {
        decimal_text(v / 10).push(digit_char(v % 10))
    }
}

/// The text of one decimal digit.
fn digit_str(d: u64) -> (r: &'static str)
    requires
        d < 10,
    ensures
        r@ == seq![digit_char(d as nat)],
{
    proof {
        reveal_strlit("0");
        reveal_strlit("1");
        reveal_strlit("2");
        reveal_strlit("3");
        reveal_strlit("4");
        reveal_strlit("5");
        reveal_strlit("6");
        reveal_strlit("7");
        reveal_strlit("8");
        reveal_strlit("9");
    }
    let r = if d == 0 {
        "0"
    } else if d == 1 {
        "1"
    } else if d == 2 {
        "2"
    } else if d == 3 {
        "3"
    } else if d == 4 {
        "4"
    } else if d == 5 {
        "5"
    } else if d == 6 {
        "6"
    } else if d == 7 {
        "7"
    } else if d == 8 {
        "8"
    } else {
        "9"
    };
    assert(r@ =~= seq![digit_char(d as nat)]);
    r
}

/// Appends the decimal text of `v`.
pub fn append_decimal(out: &mut String, v: u64)
    ensures
        final(out)@ == old(out)@ + decimal_text(v as nat),
    decreases v,
{
    if v >= 10 {
        append_decimal(out, v / 10);
    }
    out.append(digit_str(v % 10));
}

/// Appends `v` as exactly `width` decimal digits (`v` must fit them).
fn append_padded(out: &mut String, v: u64, width: u64)
    requires
        width <= 4,
    ensures
        final(out)@ == old(out)@ + padded(v as nat, width as nat),
    decreases width,
{
    if width > 0 {
        append_padded(out, v / 10, width - 1);
        out.append(digit_str(v % 10));
    }
}

/// The last `width` decimal digits of `v`, with leading zeros.
pub open spec fn padded(v: nat, width: nat) -> Seq<char>
    decreases width,
{
    if width == 0 {
        Seq::empty()
    } else {
        padded(v / 10, (width - 1) as nat).push(digit_char(v % 10))
    }
}

/// The `YYYYMMDDhhmmss` text of a date and time.
pub open spec fn last_updated_text(t: CivilTime) -> Seq<char> {
    padded(t.year as nat, 4) + padded(t.month as nat, 2) + padded(t.day as nat, 2) + padded(t.hour as nat, 2)
        + padded(t.minute as nat, 2) + padded(t.second as nat, 2)
}

/// Formats a date and time as `YYYYMMDDhhmmss`, the form of `lastUpdated`.
pub fn format_last_updated(t: CivilTime) -> (r: String)
    requires
        0 <= t.year <= 9999,
    ensures
        r@ == last_updated_text(t),
{
    let mut out = String::new();
    append_padded(&mut out, t.year as u64, 4);
    append_padded(&mut out, t.month as u64, 2);
    append_padded(&mut out, t.day as u64, 2);
    append_padded(&mut out, t.hour as u64, 2);
    append_padded(&mut out, t.minute as u64, 2);
    append_padded(&mut out, t.second as u64, 2);
    out
}

/// The `lastUpdated` text of the instant `now` (milliseconds), or `None`
/// where that instant lies outside the years 0 to 9999.
pub fn last_updated_at(now: i64) -> (r: Option<String>)
    ensures
        r is Some <==> (MIN_RFC2822_MILLIS <= now <= MAX_RFC2822_MILLIS && 0 <= utc_fields(now).0 <= 9999),
        r matches Some(s) ==> s@ == last_updated_text(civil_of(utc_fields(now))),
{
    if now < MIN_RFC2822_MILLIS || now > MAX_RFC2822_MILLIS {
        return None;
    }
    let t = civil_time(now);
    assert(t == civil_of(utc_fields(now)));
    if t.year < 0 || t.year > 9999 {
        return None;
    }
    Some(format_last_updated(t))
}

/// The `lastUpdated` text of the current time, or `None` where the clock reads
/// a time outside the years 0 to 9999.
pub fn get_timestamp_last_updated() -> (r: Option<String>)
    ensures
        r matches Some(s) ==> exists|now: i64| s@ == last_updated_text(civil_of(utc_fields(now))),
{
    let now = now_millis();
    last_updated_at(now)
}

/// `<version>-<timestamp>-<build>`, the value of a snapshot build.
pub open spec fn snapshot_value_text(version: Seq<char>, timestamp: Seq<char>, build: u64) -> Seq<char> {
    version.push('-') + timestamp.push('-') + decimal_text(build as nat)
}

impl PathInfo {
    /// The document a new artifact-level metadata file starts as.
    pub fn new_metadata(&self, updated: &str) -> (r: MavenMetadata)
        ensures
            r.wf(),
            r.group_id@ == join_dotted(strs(self.group@)),
            r.artifact_id@ == self.artifact@,
            r.versioning.latest@ == self.version@,
            r.versioning.release@ == self.version@,
            r.versioning.versions is None,
            r.versioning.snapshot is None,
            r.versioning.snapshot_versions is None,
            opt_view(r.versioning.last_updated) == Some(updated@),
    {
        MavenMetadata {
            group_id: self.dotted_group(),
            artifact_id: self.artifact.clone(),
            versioning: Versioning {
                latest: self.version.clone(),
                release: self.version.clone(),
                versions: None,
                snapshot: None,
                snapshot_versions: None,
                last_updated: Some(updated.to_owned()),
            },
        }
    }

    /// Records a release publish in the artifact-level document: its version
    /// joins the version set. Returns whether the set changed, and so whether
    /// the document needs writing; a changed document gets `updated` as its
    /// `lastUpdated`.
    pub fn put_release(&self, project: &mut MavenMetadata, updated: &str) -> (r: bool)
        requires
            old(project).wf(),
        ensures
            final(project).wf(),
            r == !old(project).versioning.version_set().contains(self.version@),
            final(project).versioning.version_set().to_set() == old(project).versioning.version_set().to_set().insert(
                self.version@,
            ),
            r ==> opt_view(final(project).versioning.last_updated) == Some(updated@),
            final(project).group_id == old(project).group_id,
            final(project).artifact_id == old(project).artifact_id,
            final(project).versioning.latest == old(project).versioning.latest,
            final(project).versioning.release == old(project).versioning.release,
            final(project).versioning.snapshot == old(project).versioning.snapshot,
            final(project).versioning.snapshot_versions == old(project).versioning.snapshot_versions,
    {
        insert_version(&mut project.versioning, self.version.clone(), updated)
    }

    /// Records a snapshot publish: the version-level document names this
    /// build as the current snapshot and lists it among its builds; the
    /// artifact-level document lists `<version>-SNAPSHOT` among its versions.
    /// Returns whether the artifact-level set changed.
    pub fn put_snapshot(&self, project: &mut MavenMetadata, version_level: &mut MavenMetadata, updated: &str) -> (r:
        bool)
        requires
            self.snapshot is Some,
            old(project).wf(),
            old(version_level).wf(),
        ensures
            final(project).wf(),
            final(version_level).wf(),
            ({
                let s = self.snapshot->0;
                &&& final(version_level).versioning.snapshot matches Some(v) && v.timestamp@ == s.timestamp@
                    && v.build_number == s.build_number
                &&& final(version_level).versioning.snapshot_set().to_set() == old(
                    version_level,
                ).versioning.snapshot_set().to_set().insert(
                    (
                        snapshot_value_text(self.version@, s.timestamp@, s.build_number),
                        opt_view(self.extension),
                        opt_view(self.classifier),
                        updated@,
                    ),
                )
            }),
            opt_view(final(version_level).versioning.last_updated) == Some(updated@),
            r == !old(project).versioning.version_set().contains(self.version@ + snapshot_suffix()),
            final(project).versioning.version_set().to_set() == old(project).versioning.version_set().to_set().insert(
                self.version@ + snapshot_suffix(),
            ),
            r ==> opt_view(final(project).versioning.last_updated) == Some(updated@),
    {
        let s = match &self.snapshot {
            Some(s) => s,
            None => {
                return false;
            },
        };
        version_level.versioning.snapshot = Some(
            Snapshot { timestamp: s.timestamp.clone(), build_number: s.build_number },
        );
        let mut value = self.version.clone();
        proof {
            reveal_strlit("-");
        }
        value.append("-");
        value.append(s.timestamp.as_str());
        value.append("-");
        append_decimal(&mut value, s.build_number);
        assert(value@ =~= snapshot_value_text(self.version@, s.timestamp@, s.build_number));
        let build = SnapshotVersion {
            value,
            extension: crate::maven_metadata::opt_copy(&self.extension),
            classifier: crate::maven_metadata::opt_copy(&self.classifier),
            updated: updated.to_owned(),
        };
        let mut builds = match version_level.versioning.snapshot_versions.take() {
            Some(b) => b,
            None => SnapshotVersions { snapshot_version: Vec::new() },
        };
        assert(builds.set_view() =~= old(version_level).versioning.snapshot_set());
        builds.insert(build);
        version_level.versioning.snapshot_versions = Some(builds);
        version_level.versioning.last_updated = Some(updated.to_owned());
        let mut name = self.version.clone();
        proof {
            reveal_strlit("-SNAPSHOT");
        }
        name.append("-SNAPSHOT");
        assert(name@ =~= self.version@ + snapshot_suffix());
        insert_version(&mut project.versioning, name, updated)
    }
}

/// `repo/<group...>/<artifact>/[<version>-SNAPSHOT/]maven-metadata.xml`.
pub open spec fn metadata_path_spec(
    repo: Seq<char>,
    group: Seq<Seq<char>>,
    artifact: Seq<char>,
    version: Seq<char>,
    snapshot: bool,
) -> Seq<char> {
    let base = join_slash(repo, group).push('/') + artifact;
    let dir = if snapshot {
        base.push('/') + version + snapshot_suffix()
    } else {
        base
    };
    dir.push('/') + "maven-metadata.xml"@
}

/// `start` followed by each component after a `/`.
pub open spec fn join_slash(start: Seq<char>, parts: Seq<Seq<char>>) -> Seq<char>
    decreases parts.len(),
{
    if parts.len() == 0 {
        start
    } else {
        join_slash(start, parts.drop_last()).push('/') + parts.last()
    }
}

impl PathInfo {
    /// Where the artifact-level (or, with `snapshot`, the version-level)
    /// metadata document of this file lives in repository `repo`.
    pub fn metadata_path(&self, repo: &str, snapshot: bool) -> (r: String)
        ensures
            r@ == metadata_path_spec(repo@, strs(self.group@), self.artifact@, self.version@, snapshot),
    {
        proof {
            reveal_strlit("/");
            reveal_strlit("-SNAPSHOT");
        }
        assert("/"@ =~= seq!['/']);
        assert("-SNAPSHOT"@ =~= snapshot_suffix());
        let ghost gv = strs(self.group@);
        let mut out = repo.to_owned();
        let mut i: usize = 0;
        assert(gv.subrange(0, 0) =~= Seq::<Seq<char>>::empty());
        while i < self.group.len()
            invariant
                i <= self.group@.len(),
                gv == strs(self.group@),
                "/"@ == seq!['/'],
                out@ == join_slash(repo@, gv.subrange(0, i as int)),
            decreases self.group.len() - i,
        {
            assert(gv.subrange(0, i + 1).drop_last() =~= gv.subrange(0, i as int));
            assert(gv.subrange(0, i + 1).last() == self.group@[i as int]@);
            out.append("/");
            out.append(self.group[i].as_str());
            i += 1;
        }
        assert(gv.subrange(0, i as int) =~= gv);
        out.append("/");
        out.append(self.artifact.as_str());
        if snapshot {
            out.append("/");
            out.append(self.version.as_str());
            out.append("-SNAPSHOT");
        }
        out.append("/");
        out.append("maven-metadata.xml");
        assert(out@ =~= metadata_path_spec(repo@, gv, self.artifact@, self.version@, snapshot));
        out
    }
}

/// Adds `v` to the version set; where it was new, sets `lastUpdated`.
fn insert_version(versioning: &mut Versioning, v: String, updated: &str) -> (r: bool)
    requires
        old(versioning).wf(),
    ensures
        final(versioning).wf(),
        r == !old(versioning).version_set().contains(v@),
        final(versioning).version_set().to_set() == old(versioning).version_set().to_set().insert(v@),
        r ==> opt_view(final(versioning).last_updated) == Some(updated@),
        final(versioning).latest == old(versioning).latest,
        final(versioning).release == old(versioning).release,
        final(versioning).snapshot == old(versioning).snapshot,
        final(versioning).snapshot_versions == old(versioning).snapshot_versions,
{
    let mut set = match versioning.versions.take() {
        Some(s) => s,
        None => Versions { version: Vec::new() },
    };
    assert(set.set_view() =~= old(versioning).version_set());
    let changed = set.insert(v);
    versioning.versions = Some(set);
    if changed {
        versioning.last_updated = Some(updated.to_owned());
    }
    changed
}

} // verus!
