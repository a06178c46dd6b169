//! Entity tags: the strong `"blake3-<base64>"` tag of a served file, and the
//! parsing and matching of `If-None-Match` / `If-Match` header values.
use vstd::prelude::*;
use crate::codec::{b64_decode, b64_encode, b64_std};
use crate::text::{is_prefix, split_char, split_seq, strip_prefix, strip_suffix, str_eq};

verus! {

#[derive(Clone, Debug)]
pub struct ETag {
    pub weak: bool,
    pub tag: String,
}

#[derive(Clone, Debug)]
pub enum ETagValidator {
    Any,
    Tags(Vec<ETag>),
}

/// What a validator header value stands for.
pub enum ValidatorView {
    Any,
    Tags(Seq<(bool, Seq<char>)>),
}

impl View for ETag {
    type V = (bool, Seq<char>);

    open spec fn view(&self) -> (bool, Seq<char>) {
        (self.weak, self.tag@)
    }
}

impl View for ETagValidator {
    type V = ValidatorView;

    open spec fn view(&self) -> ValidatorView {
        match self {
            ETagValidator::Any => ValidatorView::Any,
            ETagValidator::Tags(v) => ValidatorView::Tags(v@.map_values(|t: ETag| t@)),
        }
    }
}

/// The text of `"blake3-"`.
pub open spec fn blake3_prefix() -> Seq<char> {
    seq!['b', 'l', 'a', 'k', 'e', '3', '-']
}

/// One entity-tag: an optional `W/`, then a quoted tag.
pub open spec fn etag_model(v: Seq<char>) -> Option<(bool, Seq<char>)> {
    let weak = v.len() >= 2 && v[0] == 'W' && v[1] == '/';
    let rest = if weak { v.subrange(2, v.len() as int) } else { v };
    if rest.len() >= 2 && rest[0] == '"' && rest.last() == '"' {
        Some((weak, rest.subrange(1, rest.len() - 1)))
    } else {
        None
    }
}

/// A list element with at most one leading space taken off.
pub open spec fn trim_one_space(p: Seq<char>) -> Seq<char> {
    if p.len() > 0 && p[0] == ' ' {
        p.drop_first()
    } else {
        p
    }
}

/// The entity-tags of a comma-separated list, or `None` where one of them is malformed.
pub open spec fn tags_model(pieces: Seq<Seq<char>>) -> Option<Seq<(bool, Seq<char>)>>
    decreases pieces.len(),
{
    if pieces.len() == 0 {
        Some(Seq::empty())
    } else {
        match tags_model(pieces.drop_last()) {
            Some(ts) => match etag_model(trim_one_space(pieces.last())) {
                Some(t) => Some(ts.push(t)),
                None => None,
            },
            None => None,
        }
    }
}

/// A whole header value: `*`, or a list of entity-tags.
pub open spec fn validator_model(v: Seq<char>) -> Option<ValidatorView> {
    if v == seq!['*'] {
        Some(ValidatorView::Any)
    } else {
        match tags_model(split_seq(v, ',')) {
            Some(ts) => Some(ValidatorView::Tags(ts)),
            None => None,
        }
    }
}

/// A tag names the digest `hash`: it is `blake3-` followed by the base64 of exactly those bytes.
pub open spec fn tag_matches(tag: Seq<char>, hash: Seq<u8>) -> bool {
    is_prefix(blake3_prefix(), tag) && b64_std(hash) == tag.subrange(7, tag.len() as int)
}

/// Some tag of the list names `hash`.
pub open spec fn any_tag_matches(tags: Seq<(bool, Seq<char>)>, hash: Seq<u8>) -> bool {
    exists|i: int| 0 <= i < tags.len() && tag_matches(#[trigger] tags[i].1, hash)
}

/// The strong entity-tag header value of a file with digest `hash`.
pub open spec fn etag_header_model(hash: Seq<u8>) -> Seq<char> {
    seq!['"'] + blake3_prefix() + b64_std(hash) + seq!['"']
}

impl ETagValidator {
    /// Parses a `If-None-Match` / `If-Match` header value.
    pub fn parse(value: &str) -> (r: Option<Self>)
        ensures
            match r {
                Some(v) => validator_model(value@) == Some(v@),
                None => validator_model(value@) is None,
            },
    {
        proof {
            reveal_strlit("*");
        }
        assert("*"@ =~= seq!['*']);
        if str_eq(value, "*") {
            return Some(Self::Any);
        }
        assert(value@ != seq!['*']);
        let pieces = split_char(value, ',');
        let mut values: Vec<ETag> = Vec::new();
        let mut i: usize = 0;
        while i < pieces.len()
            invariant
                i <= pieces@.len(),
                value@ != seq!['*'],
                pieces@.map_values(|x: String| x@) == split_seq(value@, ','),
                tags_model(split_seq(value@, ',').subrange(0, i as int)) == Some(
                    values@.map_values(|t: ETag| t@),
                ),
            decreases pieces.len() - i,
        {
            let ghost pre = split_seq(value@, ',').subrange(0, i as int);
            let ghost next = split_seq(value@, ',').subrange(0, i + 1);
            assert(next.drop_last() =~= pre);
            assert(next.last() == pieces@[i as int]@);
            let piece = pieces[i].as_str();
            proof {
                reveal_strlit(" ");
            }
            let trimmed = match strip_prefix(piece, " ") {
                Some(t) => t,
                None => piece,
            };
            assert(" "@ =~= seq![' ']);
            assert(trimmed@ == trim_one_space(piece@)) by {
                if is_prefix(" "@, piece@) {
                    assert(piece@.subrange(0, 1)[0] == ' ');
                    assert(piece@.subrange(1, piece@.len() as int) =~= piece@.drop_first());
                }
                if piece@.len() > 0 && piece@[0] == ' ' {
                    assert(is_prefix(" "@, piece@)) by {
                        assert(piece@.subrange(0, 1) =~= " "@);
                    }
                }
            }
            match ETag::parse(trimmed) {
                Some(t) => {
                    values.push(t);
                    assert(values@.map_values(|t: ETag| t@) =~= values@.drop_last().map_values(
                        |t: ETag| t@,
                    ).push(values@.last()@));
                },
                None => {
                    proof {
                        let total = split_seq(value@, ',');
                        assert(tags_model(next) is None);
                        assert(pieces@.map_values(|x: String| x@).len() == pieces@.len());
                        lemma_tags_prefix_none(total, i as int + 1);
                        assert(tags_model(total) is None);
                    }
                    return None;
                },
            }
            i += 1;
        }
        assert(split_seq(value@, ',').subrange(0, i as int) =~= split_seq(value@, ','));
        Some(Self::Tags(values))
    }
}

/// A malformed element makes every longer list malformed.
proof fn lemma_tags_prefix_none(pieces: Seq<Seq<char>>, k: int)
    requires
        0 <= k <= pieces.len(),
        tags_model(pieces.subrange(0, k)) is None,
    ensures
        tags_model(pieces) is None,
    decreases pieces.len() - k,
{
    if k < pieces.len() {
        assert(pieces.subrange(0, k + 1).drop_last() =~= pieces.subrange(0, k));
        lemma_tags_prefix_none(pieces, k + 1);
    } else {
        assert(pieces.subrange(0, k) =~= pieces);
    }
}

impl ETag {
    /// Parses one entity-tag: an optional `W/`, then a tag in double quotes.
    pub fn parse(value: &str) -> (r: Option<Self>)
        ensures
            match r {
                Some(t) => etag_model(value@) == Some(t@),
                None => etag_model(value@) is None,
            },
    {
        proof {
            reveal_strlit("W/");
            reveal_strlit("\"");
        }
        let weak;
        let rest = match strip_prefix(value, "W/") {
            Some(v) => {
                weak = true;
                v
            },
            None => {
                weak = false;
                value
            },
        };
        assert("W/"@ =~= seq!['W', '/']);
        assert("\""@ =~= seq!['"']);
        assert(weak == (value@.len() >= 2 && value@[0] == 'W' && value@[1] == '/')) by {
            if weak {
                assert(value@.subrange(0, 2)[0] == value@[0]);
                assert(value@.subrange(0, 2)[1] == value@[1]);
            }
            if value@.len() >= 2 && value@[0] == 'W' && value@[1] == '/' {
                assert(value@.subrange(0, 2) =~= "W/"@);
            }
        }
        let inner = match strip_prefix(rest, "\"") {
            Some(v) => v,
            None => {
                assert(!(rest@.len() >= 1 && rest@[0] == '"')) by {
                    if rest@.len() >= 1 && rest@[0] == '"' {
                        assert(rest@.subrange(0, 1) =~= "\""@);
                    }
                }
                return None;
            },
        };
        let tag = match strip_suffix(inner, "\"") {
            Some(v) => v,
            None => {
                assert(!(inner@.len() >= 1 && inner@.last() == '"')) by {
                    if inner@.len() >= 1 && inner@.last() == '"' {
                        assert(inner@.subrange(inner@.len() - 1, inner@.len() as int) =~= "\""@);
                    }
                }
                return None;
            },
        };
        assert(rest@.subrange(0, 1)[0] == rest@[0]);
        assert(inner@.subrange(inner@.len() - 1, inner@.len() as int)[0] == inner@.last());
        assert(inner@.last() == rest@.last());
        assert(tag@ =~= rest@.subrange(1, rest@.len() - 1));
        Some(ETag { weak, tag: tag.to_owned() })
    }

    /// Whether this tag names the BLAKE3 digest `hash`: the tag is
    /// `blake3-<base64>` and the base64 text decodes to exactly those bytes.
    pub fn matches(&self, hash: &[u8]) -> (r: bool)
        ensures
            r == tag_matches(self.tag@, hash@),
    {
        proof {
            reveal_strlit("blake3-");
        }
        assert(blake3_prefix() =~= "blake3-"@);
        match strip_prefix(self.tag.as_str(), "blake3-") {
            Some(encoded) => {
                assert(encoded@ == self.tag@.subrange(7, self.tag@.len() as int));
                let decoded = b64_decode(encoded);
                assert(b64_std(hash@) == encoded@ ==> (decoded is Some && decoded->0@ == hash@));
                match decoded {
                Some(bytes) => {
                    let n = bytes.len();
                    if n != hash.len() {
                        assert(bytes@ != hash@);
                        return false;
                    }
                    assert(tag_matches(self.tag@, hash@) ==> bytes@ == hash@);
                    let mut i: usize = 0;
                    while i < n
                        invariant
                            tag_matches(self.tag@, hash@) ==> bytes@ == hash@,
                            n == bytes@.len(),
                            n == hash@.len(),
                            i <= n,
                            forall|j: int| 0 <= j < i ==> bytes@[j] == hash@[j],
                        decreases n - i,
                    {
                        if bytes[i] != hash[i] {
                            assert(bytes@ != hash@);
                            return false;
                        }
                        i += 1;
                    }
                    assert(bytes@ =~= hash@);
                    true
                },
                None => false,
            }},
            None => false,
        }
    }
}

/// The `ETag` header value for a file whose BLAKE3 digest is `hash`.
pub fn etag_header(hash: &[u8]) -> (r: String)
    ensures
        r@ == etag_header_model(hash@),
        forall|i: int| 7 < i < r@.len() - 1 ==> crate::codec::is_b64_char(#[trigger] r@[i]),
{
    proof {
        reveal_strlit("\"blake3-");
        reveal_strlit("\"");
    }
    let encoded = b64_encode(hash);
    let mut out = String::from_str("\"blake3-");
    out.append(encoded.as_str());
    out.append("\"");
    assert(out@ =~= etag_header_model(hash@));
    out
}

} // verus!
