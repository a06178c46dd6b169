//! Evaluation of the conditional request headers `If-None-Match`, `If-Match`,
//! `If-Unmodified-Since` and `If-Modified-Since` against a served file.
use vstd::prelude::*;
use crate::clock::{parse_rfc2822, rfc2822_millis};
use crate::etag::{any_tag_matches, etag_header_model, blake3_prefix, etag_model, tag_matches, tags_model,
    trim_one_space, validator_model, ETagValidator, ValidatorView};
use crate::codec::{b64_std, is_b64_char};
use crate::text::{split_seq, strs};

verus! {

/// What the conditional headers make of a request.
#[derive(Clone, Copy, Debug, PartialEq, Eq, Structural)]
pub enum CondOutcome {
    /// Serve the representation with status 200.
    Serve,
    /// 304, no body.
    NotModified,
    /// 412, no body.
    PreconditionFailed,
    /// 400: an `If-None-Match` value is malformed.
    BadIfNoneMatch,
    /// 400: an `If-Match` value is malformed.
    BadIfMatch,
    /// 400: a date header is not RFC 2822.
    BadDate,
    /// 400: a date header was sent, but the file's modification time is unknown.
    NoModificationTime,
}

impl CondOutcome {
    pub open spec fn status_spec(self) -> u16 {
        match self {
            CondOutcome::Serve => 200,
            CondOutcome::NotModified => 304,
            CondOutcome::PreconditionFailed => 412,
            _ => 400,
        }
    }

    /// The response status.
    pub fn status(self) -> (r: u16)
        ensures
            r == self.status_spec(),
    {
        match self {
            CondOutcome::Serve => 200,
            CondOutcome::NotModified => 304,
            CondOutcome::PreconditionFailed => 412,
            _ => 400,
        }
    }

    /// Only a served representation has a body.
    pub open spec fn sends_body_spec(self) -> bool {
        self == CondOutcome::Serve
    }

    /// Whether the response carries the file (or listing) as its body.
    pub fn sends_body(self) -> (r: bool)
        ensures
            r == self.sends_body_spec(),
    {
        match self {
            CondOutcome::Serve => true,
            _ => false,
        }
    }
}

/// The result of reading every value of a validator header.
#[derive(Clone, Copy, Debug, PartialEq, Eq, Structural)]
pub enum Scan {
    Absent,
    Matched,
    Unmatched,
    Malformed,
}

/// Reads the values in order: a malformed one decides at once, `*` matches and
/// ends the reading, a list matches where one of its tags names `hash`.
pub open spec fn scan_from(values: Seq<Seq<char>>, hash: Seq<u8>, matched: bool) -> Scan
    decreases values.len(),
{
    if values.len() == 0 {
        if matched {
            Scan::Matched
        } else {
            Scan::Unmatched
        }
    } else {
        match validator_model(values[0]) {
            None => Scan::Malformed,
            Some(ValidatorView::Any) => Scan::Matched,
            Some(ValidatorView::Tags(ts)) => scan_from(
                values.drop_first(),
                hash,
                matched || any_tag_matches(ts, hash),
            ),
        }
    }
}

pub open spec fn validator_scan(values: Seq<Seq<char>>, hash: Seq<u8>) -> Scan {
    if values.len() == 0 {
        Scan::Absent
    } else {
        scan_from(values, hash, false)
    }
}

/// `If-Unmodified-Since`: the first value that is not a date, or that the
/// modification time reaches, decides.
pub open spec fn unmodified_scan(dates: Seq<Option<i64>>, mtime: i64) -> Option<CondOutcome>
    decreases dates.len(),
{
    if dates.len() == 0 {
        None
    } else {
        match dates[0] {
            None => Some(CondOutcome::BadDate),
            Some(t) => if mtime >= t {
                Some(CondOutcome::PreconditionFailed)
            } else {
                unmodified_scan(dates.drop_first(), mtime)
            },
        }
    }
}

/// `If-Modified-Since`: the first value that is not a date, or that the
/// modification time does not exceed, decides.
pub open spec fn modified_scan(dates: Seq<Option<i64>>, mtime: i64) -> Option<CondOutcome>
    decreases dates.len(),
{
    if dates.len() == 0 {
        None
    } else {
        match dates[0] {
            None => Some(CondOutcome::BadDate),
            Some(t) => if !(mtime > t) {
                Some(CondOutcome::NotModified)
            } else {
                modified_scan(dates.drop_first(), mtime)
            },
        }
    }
}

pub open spec fn after_none_match(n: Scan) -> CondOutcome {
    if n == Scan::Matched {
        CondOutcome::NotModified
    } else {
        CondOutcome::Serve
    }
}

/// The outcome of the four conditional headers, evaluated in the order
/// `If-None-Match`, `If-Match`, `If-Unmodified-Since`, `If-Modified-Since`;
/// the last is read only where no `If-None-Match` was sent.
pub open spec fn conditional_outcome(
    none_match: Seq<Seq<char>>,
    if_match: Seq<Seq<char>>,
    modified_since: Seq<Option<i64>>,
    unmodified_since: Seq<Option<i64>>,
    hash: Seq<u8>,
    mtime: Option<i64>,
) -> CondOutcome {
    let n = validator_scan(none_match, hash);
    let m = validator_scan(if_match, hash);
    if n == Scan::Malformed {
        CondOutcome::BadIfNoneMatch
    } else if m == Scan::Malformed {
        CondOutcome::BadIfMatch
    } else if m == Scan::Unmatched {
        CondOutcome::PreconditionFailed
    } else if unmodified_since.len() > 0 || (none_match.len() == 0 && modified_since.len() > 0) {
        match mtime {
            None => CondOutcome::NoModificationTime,
            Some(t) => match unmodified_scan(unmodified_since, t) {
                Some(o) => o,
                None => if none_match.len() == 0 {
                    match modified_scan(modified_since, t) {
                        Some(o) => o,
                        None => after_none_match(n),
                    }
                } else {
                    after_none_match(n)
                },
            },
        }
    } else {
        after_none_match(n)
    }
}

/// The values of the conditional headers of one request, in the order sent.
#[derive(Clone, Debug)]
pub struct ConditionalHeaders {
    pub if_none_match: Vec<String>,
    pub if_match: Vec<String>,
    pub if_modified_since: Vec<String>,
    pub if_unmodified_since: Vec<String>,
}

pub open spec fn dates_of(v: Seq<String>) -> Seq<Option<i64>> {
    v.map_values(|s: String| rfc2822_millis(s@))
}

/// Whether some tag of the validator names `hash`.
fn tags_match(tags: &Vec<crate::etag::ETag>, hash: &[u8]) -> (r: bool)
    ensures
        r == any_tag_matches(tags@.map_values(|t: crate::etag::ETag| t@), hash@),
{
    let ghost ts = tags@.map_values(|t: crate::etag::ETag| t@);
    let mut i: usize = 0;
    while i < tags.len()
        invariant
            i <= tags@.len(),
            ts == tags@.map_values(|t: crate::etag::ETag| t@),
            forall|j: int| 0 <= j < i ==> !tag_matches(#[trigger] ts[j].1, hash@),
        decreases tags.len() - i,
    {
        if tags[i].matches(hash) {
            assert(tag_matches(ts[i as int].1, hash@));
            return true;
        }
        i += 1;
    }
    false
}

/// Reads a validator header's values against `hash`.
pub fn scan_validators(values: &Vec<String>, hash: &[u8]) -> (r: Scan)
    ensures
        r == validator_scan(strs(values@), hash@),
{
    if values.len() == 0 {
        return Scan::Absent;
    }
    let ghost all = strs(values@);
    let mut matched = false;
    let mut i: usize = 0;
    assert(all.subrange(0, all.len() as int) =~= all);
    while i < values.len()
        invariant
            i <= values@.len(),
            all == strs(values@),
            scan_from(all, hash@, false) == scan_from(all.subrange(i as int, all.len() as int), hash@, matched),
        decreases values.len() - i,
    {
        let ghost rest = all.subrange(i as int, all.len() as int);
        assert(rest.drop_first() =~= all.subrange(i + 1, all.len() as int));
        assert(rest[0] == values@[i as int]@);
        match ETagValidator::parse(values[i].as_str()) {
            None => {
                return Scan::Malformed;
            },
            Some(ETagValidator::Any) => {
                return Scan::Matched;
            },
            Some(ETagValidator::Tags(tags)) => {
                if tags_match(&tags, hash) {
                    matched = true;
                }
            },
        }
        i += 1;
    }
    if matched {
        Scan::Matched
    } else {
        Scan::Unmatched
    }
}

fn scan_unmodified(dates: &Vec<Option<i64>>, mtime: i64) -> (r: Option<CondOutcome>)
    ensures
        r == unmodified_scan(dates@, mtime),
{
    let mut i: usize = 0;
    assert(dates@.subrange(0, dates@.len() as int) =~= dates@);
    while i < dates.len()
        invariant
            i <= dates@.len(),
            unmodified_scan(dates@, mtime) == unmodified_scan(dates@.subrange(i as int, dates@.len() as int), mtime),
        decreases dates.len() - i,
    {
        assert(dates@.subrange(i as int, dates@.len() as int).drop_first() =~= dates@.subrange(i + 1, dates@.len() as int));
        match dates[i] {
            None => {
                return Some(CondOutcome::BadDate);
            },
            Some(t) => {
                if mtime >= t {
                    return Some(CondOutcome::PreconditionFailed);
                }
            },
        }
        i += 1;
    }
    None
}

fn scan_modified(dates: &Vec<Option<i64>>, mtime: i64) -> (r: Option<CondOutcome>)
    ensures
        r == modified_scan(dates@, mtime),
{
    let mut i: usize = 0;
    assert(dates@.subrange(0, dates@.len() as int) =~= dates@);
    while i < dates.len()
        invariant
            i <= dates@.len(),
            modified_scan(dates@, mtime) == modified_scan(dates@.subrange(i as int, dates@.len() as int), mtime),
        decreases dates.len() - i,
    {
        assert(dates@.subrange(i as int, dates@.len() as int).drop_first() =~= dates@.subrange(i + 1, dates@.len() as int));
        match dates[i] {
            None => {
                return Some(CondOutcome::BadDate);
            },
            Some(t) => {
                if !(mtime > t) {
                    return Some(CondOutcome::NotModified);
                }
            },
        }
        i += 1;
    }
    None
}

/// Decides a request from its validator headers and its already parsed date headers.
pub fn decide_conditionals(
    if_none_match: &Vec<String>,
    if_match: &Vec<String>,
    modified_since: &Vec<Option<i64>>,
    unmodified_since: &Vec<Option<i64>>,
    hash: &[u8],
    mtime: Option<i64>,
) -> (r: CondOutcome)
    ensures
        r == conditional_outcome(
            strs(if_none_match@),
            strs(if_match@),
            modified_since@,
            unmodified_since@,
            hash@,
            mtime,
        ),
{
    let n = scan_validators(if_none_match, hash);
    if n == Scan::Malformed {
        return CondOutcome::BadIfNoneMatch;
    }
    let m = scan_validators(if_match, hash);
    if m == Scan::Malformed {
        return CondOutcome::BadIfMatch;
    }
    if m == Scan::Unmatched {
        return CondOutcome::PreconditionFailed;
    }
    let after = if n == Scan::Matched {
        CondOutcome::NotModified
    } else {
        CondOutcome::Serve
    };
    if unmodified_since.len() > 0 || (if_none_match.len() == 0 && modified_since.len() > 0) {
        match mtime {
            None => CondOutcome::NoModificationTime,
            Some(t) => match scan_unmodified(unmodified_since, t) {
                Some(o) => o,
                None => {
                    if if_none_match.len() == 0 {
                        match scan_modified(modified_since, t) {
                            Some(o) => o,
                            None => after,
                        }
                    } else {
                        after
                    }
                },
            },
        }
    } else {
        after
    }
}

/// Parses each value as an RFC 2822 date.
pub fn parse_dates(values: &Vec<String>) -> (r: Vec<Option<i64>>)
    ensures
        r@ == dates_of(values@),
{
    let mut out: Vec<Option<i64>> = Vec::new();
    let mut i: usize = 0;
    while i < values.len()
        invariant
            i <= values@.len(),
            out@ == dates_of(values@.subrange(0, i as int)),
        decreases values.len() - i,
    {
        out.push(parse_rfc2822(values[i].as_str()));
        assert(dates_of(values@.subrange(0, i + 1)) =~= dates_of(values@.subrange(0, i as int)).push(
            rfc2822_millis(values@[i as int]@),
        ));
        i += 1;
    }
    assert(values@.subrange(0, i as int) =~= values@);
    out
}

/// Evaluates the conditional headers of a request for a file with BLAKE3
/// digest `hash` and modification time `mtime` (milliseconds).
pub fn evaluate_conditionals(headers: &ConditionalHeaders, hash: &[u8], mtime: Option<i64>) -> (r: CondOutcome)
    ensures
        r == conditional_outcome(
            strs(headers.if_none_match@),
            strs(headers.if_match@),
            dates_of(headers.if_modified_since@),
            dates_of(headers.if_unmodified_since@),
            hash@,
            mtime,
        ),
{
    let modified = parse_dates(&headers.if_modified_since);
    let unmodified = parse_dates(&headers.if_unmodified_since);
    decide_conditionals(&headers.if_none_match, &headers.if_match, &modified, &unmodified, hash, mtime)
}

proof fn lemma_split_without_sep(s: Seq<char>, sep: char)
    requires
        forall|i: int| 0 <= i < s.len() ==> s[i] != sep,
    ensures
        split_seq(s, sep) == seq![s],
    decreases s.len(),
{
    if s.len() > 0 {
        let p = s.drop_last();
        assert forall|i: int| 0 <= i < p.len() implies p[i] != sep by {
            assert(p[i] == s[i]);
        }
        lemma_split_without_sep(p, sep);
        assert(s.last() == s[s.len() - 1]);
        assert(p.push(s.last()) =~= s);
        assert(split_seq(s, sep) == seq![p].update(0, p.push(s.last())));
        assert(seq![p].update(0, s) =~= seq![s]);
    } else {
        assert(s =~= Seq::<char>::empty());
    }
}

/// What a strong tag built by `etag_header` parses to.
proof fn lemma_own_tag_parses(hash: Seq<u8>, tag: Seq<char>)
    requires
        tag == etag_header_model(hash),
        forall|i: int| 7 < i < tag.len() - 1 ==> is_b64_char(#[trigger] tag[i]),
    ensures
        validator_model(tag) == Some(ValidatorView::Tags(seq![(false, blake3_prefix() + b64_std(hash))])),
        tag_matches(blake3_prefix() + b64_std(hash), hash),
{
    let inner = blake3_prefix() + b64_std(hash);
    assert(tag.len() == b64_std(hash).len() + 9);
    assert forall|i: int| 0 <= i < tag.len() implies tag[i] != ',' by {
        if 7 < i < tag.len() - 1 {
            assert(is_b64_char(tag[i]));
        }
    }
    lemma_split_without_sep(tag, ',');
    assert(tag != seq!['*']) by {
        assert(tag.len() >= 9);
    }
    assert(trim_one_space(tag) == tag);
    assert(tag.subrange(1, tag.len() - 1) =~= inner);
    assert(etag_model(tag) == Some((false, inner)));
    let pieces = seq![tag];
    assert(pieces.drop_last() =~= Seq::<Seq<char>>::empty());
    assert(pieces.last() == tag);
    assert(tags_model(Seq::<Seq<char>>::empty()) == Some(Seq::<(bool, Seq<char>)>::empty()));
    assert(tags_model(pieces) == Some(seq![(false, inner)])) by {
        assert(Seq::<(bool, Seq<char>)>::empty().push((false, inner)) =~= seq![(false, inner)]);
    }
    assert(inner.subrange(0, 7) =~= blake3_prefix());
    assert(inner.subrange(7, inner.len() as int) =~= b64_std(hash));
}

/// A request whose only validator is the served file's own strong entity-tag,
/// sent as `If-None-Match`, is answered with 304 and no body (without
/// `If-Match` or `If-Unmodified-Since`; `If-Modified-Since` is then ignored).
pub proof fn lemma_own_etag_not_modified(
    hash: Seq<u8>,
    tag: Seq<char>,
    modified_since: Seq<Option<i64>>,
    mtime: Option<i64>,
)
    requires
        tag == etag_header_model(hash),
        forall|i: int| 7 < i < tag.len() - 1 ==> is_b64_char(#[trigger] tag[i]),
    ensures
        conditional_outcome(seq![tag], Seq::empty(), modified_since, Seq::empty(), hash, mtime)
            == CondOutcome::NotModified,
        !CondOutcome::NotModified.sends_body_spec(),
{
    lemma_own_tag_parses(hash, tag);
    let ts = seq![(false, blake3_prefix() + b64_std(hash))];
    assert(any_tag_matches(ts, hash)) by {
        assert(tag_matches(ts[0].1, hash));
    }
    assert(seq![tag].drop_first() =~= Seq::<Seq<char>>::empty());
    assert(seq![tag][0] == tag);
    assert(scan_from(Seq::<Seq<char>>::empty(), hash, true) == Scan::Matched);
    assert(validator_scan(seq![tag], hash) == Scan::Matched);
    assert(validator_scan(Seq::<Seq<char>>::empty(), hash) == Scan::Absent);
}

/// A request whose `If-Match` holds only a tag that does not name the served
/// file is answered with 412 and no body, whatever `If-None-Match` holds, as
/// long as that header is well formed.
pub proof fn lemma_foreign_if_match_fails(
    hash: Seq<u8>,
    other: Seq<u8>,
    tag: Seq<char>,
    none_match: Seq<Seq<char>>,
    modified_since: Seq<Option<i64>>,
    unmodified_since: Seq<Option<i64>>,
    mtime: Option<i64>,
)
    requires
        tag == etag_header_model(other),
        forall|i: int| 7 < i < tag.len() - 1 ==> is_b64_char(#[trigger] tag[i]),
        !tag_matches(blake3_prefix() + b64_std(other), hash),
        validator_scan(none_match, hash) != Scan::Malformed,
    ensures
        conditional_outcome(none_match, seq![tag], modified_since, unmodified_since, hash, mtime)
            == CondOutcome::PreconditionFailed,
        !CondOutcome::PreconditionFailed.sends_body_spec(),
{
    lemma_own_tag_parses(other, tag);
    let ts = seq![(false, blake3_prefix() + b64_std(other))];
    assert(!any_tag_matches(ts, hash)) by {
        assert forall|i: int| 0 <= i < ts.len() implies !tag_matches(#[trigger] ts[i].1, hash) by {
            assert(i == 0);
        }
    }
    assert(seq![tag].drop_first() =~= Seq::<Seq<char>>::empty());
    assert(seq![tag][0] == tag);
    assert(scan_from(Seq::<Seq<char>>::empty(), hash, false) == Scan::Unmatched);
    assert(validator_scan(seq![tag], hash) == Scan::Unmatched);
}

} // verus!
