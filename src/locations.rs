//! The repositories whose local stores a request consults: the requested one,
//! then every repository reachable through `Local` upstreams, each once.
use vstd::prelude::*;
use vstd::set_lib::{lemma_int_range, lemma_len_subset, set_int_range};
use crate::err::GetRepoFileError;
use crate::repository::{find_key, last_key, lemma_last_key, string_keys, Repository, Upstream};
use crate::text::{str_eq, strs};

verus! {

/// The result of expanding a repository's local upstreams.
pub struct LookLocations {
    /// The repositories to consult, the requested one first.
    pub paths: Vec<String>,
    /// For each repository after the first, the index of its configuration in the table given.
    pub sources: Vec<usize>,
    /// Local upstreams named somewhere whose configuration the table lacks.
    pub missing: Vec<String>,
    /// One `NotFound` per missing repository.
    pub errors: Vec<GetRepoFileError>,
}

/// `c` names `u` as a local upstream.
pub open spec fn names_local(c: &Repository, u: Seq<char>) -> bool {
    exists|i: int|
        0 <= i < c.upstreams@.len() && match #[trigger] c.upstreams@[i] {
            Upstream::Local(l) => l.path@ == u,
            Upstream::Remote(_) => false,
        }
}

/// The configuration of the `k`-th repository found: the requested one's,
/// then those the table gives.
pub open spec fn config_at(
    root_config: &Repository,
    known: Seq<(String, Repository)>,
    sources: Seq<usize>,
    k: int,
) -> Repository {
    if k == 0 {
        *root_config
    } else {
        known[sources[k - 1] as int].1
    }
}

/// The `j`-th repository found is a local upstream of one found before it.
pub open spec fn reached(
    root_config: &Repository,
    known: Seq<(String, Repository)>,
    sources: Seq<usize>,
    found: Seq<Seq<char>>,
    j: int,
) -> bool {
    exists|k: int| 0 <= k < j && #[trigger] names_local(&config_at(root_config, known, sources, k), found[j])
}

proof fn lemma_reached_grows(
    root_config: &Repository,
    known: Seq<(String, Repository)>,
    sources: Seq<usize>,
    more: Seq<usize>,
    found: Seq<Seq<char>>,
    longer: Seq<Seq<char>>,
    j: int,
)
    requires
        reached(root_config, known, sources, found, j),
        0 <= j < found.len() <= longer.len(),
        sources.len() <= more.len(),
        j <= sources.len() + 1,
        forall|x: int| 0 <= x < found.len() ==> longer[x] == found[x],
        forall|x: int| 0 <= x < sources.len() ==> more[x] == sources[x],
    ensures
        reached(root_config, known, more, longer, j),
{
    let k = choose|k: int| 0 <= k < j && #[trigger] names_local(&config_at(root_config, known, sources, k), found[j]);
    if k > 0 {
        assert(more[k - 1] == sources[k - 1]);
    }
    assert(config_at(root_config, known, more, k) == config_at(root_config, known, sources, k));
    assert(names_local(&config_at(root_config, known, more, k), longer[j]));
}

/// The expansion is well formed for `root` and the table `known`: the
/// requested repository comes first, no repository comes twice, each later one
/// has its configuration in the table and is a local upstream of one found
/// before it (so every one is reachable from the root), and the set is
/// closed: every local upstream of a repository found is found too, or is
/// listed as missing, which only names lacking from the table are.
pub open spec fn expansion_spec(
    r: &LookLocations,
    root: Seq<char>,
    root_config: &Repository,
    known: Seq<(String, Repository)>,
) -> bool {
    let found = strs(r.paths@);
    let keys = string_keys(known);
    &&& found.len() >= 1
    &&& found[0] == root
    &&& found.no_duplicates()
    &&& r.sources@.len() == found.len() - 1
    &&& forall|j: int|
        1 <= j < found.len() ==> last_key(keys, #[trigger] found[j]) == Some(r.sources@[j - 1] as int)
    &&& forall|j: int| 1 <= j < found.len() ==> #[trigger] reached(root_config, known, r.sources@, found, j)
    &&& forall|u: Seq<char>| names_local(root_config, u) ==> found.contains(u) || strs(r.missing@).contains(u)
    &&& forall|j: int, u: Seq<char>|
        0 <= j < r.sources@.len() && #[trigger] names_local(&known[r.sources@[j] as int].1, u) ==> found.contains(u)
            || strs(r.missing@).contains(u)
    &&& forall|j: int| 0 <= j < r.missing@.len() ==> last_key(keys, (#[trigger] r.missing@[j])@) is None
    &&& strs(r.missing@).no_duplicates()
    &&& r.errors@.len() == r.missing@.len()
    &&& forall|j: int| 0 <= j < r.errors@.len() ==> r.errors@[j] == GetRepoFileError::NotFound
}

proof fn lemma_distinct_below(s: Seq<int>, n: int)
    requires
        n >= 0,
        s.no_duplicates(),
        forall|i: int| 0 <= i < s.len() ==> 0 <= #[trigger] s[i] < n,
    ensures
        s.len() <= n,
{
    s.unique_seq_to_set();
    lemma_int_range(0, n);
    assert(s.to_set().subset_of(set_int_range(0, n)));
    lemma_len_subset(s.to_set(), set_int_range(0, n));
}

/// Whether `v` holds a string equal to `s`.
fn holds(v: &Vec<String>, s: &str) -> (r: bool)
    ensures
        r == strs(v@).contains(s@),
{
    let mut i: usize = 0;
    while i < v.len()
        invariant
            i <= v@.len(),
            forall|j: int| 0 <= j < i ==> v@[j]@ != s@,
        decreases v.len() - i,
    {
        if str_eq(v[i].as_str(), s) {
            assert(strs(v@)[i as int] == s@);
            return true;
        }
        i += 1;
    }
    assert forall|j: int| 0 <= j < strs(v@).len() implies strs(v@)[j] != s@ by {
        assert(strs(v@)[j] == v@[j]@);
    }
    false
}

/// Expands the local upstreams of repository `repo`, whose configuration is
/// `config`, breadth first; `known` holds the configurations of the other
/// repositories by name. Cycles and shared upstreams are visited once.
pub fn get_repo_look_locations(repo: &str, config: &Repository, known: &Vec<(String, Repository)>) -> (r:
    LookLocations)
    ensures
        expansion_spec(&r, repo@, config, known@),
{
    let ghost keys = string_keys(known@);
    let mut paths: Vec<String> = Vec::new();
    paths.push(repo.to_owned());
    let mut sources: Vec<usize> = Vec::new();
    let mut missing: Vec<String> = Vec::new();
    let mut errors: Vec<GetRepoFileError> = Vec::new();
    let mut pos: usize = 0;
    assert(strs(paths@) =~= seq![repo@]);
    while pos < paths.len()
        invariant
            keys == string_keys(known@),
            strs(paths@).len() >= 1,
            strs(paths@)[0] == repo@,
            strs(paths@).no_duplicates(),
            sources@.len() == paths@.len() - 1,
            paths@.len() <= known@.len() + 1,
            pos <= paths@.len(),
            forall|j: int|
                1 <= j < paths@.len() ==> last_key(keys, #[trigger] strs(paths@)[j]) == Some(sources@[j - 1] as int),
            forall|j: int| 1 <= j < paths@.len() ==> #[trigger] reached(config, known@, sources@, strs(paths@), j),
            forall|j: int| 0 <= j < sources@.len() ==> (#[trigger] sources@[j]) < known@.len(),
            pos > 0 ==> forall|u: Seq<char>|
                names_local(config, u) ==> strs(paths@).contains(u) || strs(missing@).contains(u),
            forall|j: int, u: Seq<char>|
                0 <= j < pos - 1 && #[trigger] names_local(&known@[sources@[j] as int].1, u) ==> strs(
                    paths@,
                ).contains(u) || strs(missing@).contains(u),
            forall|j: int| 0 <= j < missing@.len() ==> last_key(keys, (#[trigger] missing@[j])@) is None,
            strs(missing@).no_duplicates(),
            errors@.len() == missing@.len(),
            forall|j: int| 0 <= j < errors@.len() ==> errors@[j] == GetRepoFileError::NotFound,
        decreases known@.len() + 1 - pos,
    {
        let current: &Repository = if pos == 0 {
            config
        } else {
            &known[sources[pos - 1]].1
        };
        let mut k: usize = 0;
        while k < current.upstreams.len()
            invariant
                keys == string_keys(known@),
                strs(paths@).len() >= 1,
                strs(paths@)[0] == repo@,
                strs(paths@).no_duplicates(),
                sources@.len() == paths@.len() - 1,
                paths@.len() <= known@.len() + 1,
                pos < paths@.len(),
                current == (if pos == 0 { config } else { &known@[sources@[pos - 1] as int].1 }),
                *current == config_at(config, known@, sources@, pos as int),
                forall|j: int|
                    1 <= j < paths@.len() ==> last_key(keys, #[trigger] strs(paths@)[j]) == Some(sources@[j - 1] as int),
                forall|j: int| 1 <= j < paths@.len() ==> #[trigger] reached(config, known@, sources@, strs(paths@), j),
                forall|j: int| 0 <= j < sources@.len() ==> (#[trigger] sources@[j]) < known@.len(),
                pos > 0 ==> forall|u: Seq<char>|
                    names_local(config, u) ==> strs(paths@).contains(u) || strs(missing@).contains(u),
                forall|j: int, u: Seq<char>|
                    0 <= j < pos - 1 && #[trigger] names_local(&known@[sources@[j] as int].1, u) ==> strs(
                        paths@,
                    ).contains(u) || strs(missing@).contains(u),
                forall|i: int|
                    0 <= i < k ==> match #[trigger] current.upstreams@[i] {
                        Upstream::Local(l) => strs(paths@).contains(l.path@) || strs(missing@).contains(l.path@),
                        Upstream::Remote(_) => true,
                    },
                forall|j: int| 0 <= j < missing@.len() ==> last_key(keys, (#[trigger] missing@[j])@) is None,
                strs(missing@).no_duplicates(),
                errors@.len() == missing@.len(),
                forall|j: int| 0 <= j < errors@.len() ==> errors@[j] == GetRepoFileError::NotFound,
            decreases current.upstreams.len() - k,
        {
            match &current.upstreams[k] {
                Upstream::Remote(_) => {},
                Upstream::Local(l) => {
                    let path = l.path.as_str();
                    if !holds(&paths, path) && !holds(&missing, path) {
                        match find_key(known, path) {
                            Some(i) => {
                                let ghost old_names = strs(paths@);
                                let ghost old_sources = sources@;
                                paths.push(path.to_owned());
                                sources.push(i);
                                assert(names_local(current, path@)) by {
                                    assert(match current.upstreams@[k as int] {
                                        Upstream::Local(l2) => l2.path@ == path@,
                                        Upstream::Remote(_) => false,
                                    });
                                }
                                assert(strs(paths@) =~= old_names.push(path@));
                                assert forall|j: int| 1 <= j < paths@.len() implies #[trigger] reached(
                                    config,
                                    known@,
                                    sources@,
                                    strs(paths@),
                                    j,
                                ) by {
                                    if j < old_names.len() {
                                        lemma_reached_grows(config, known@, old_sources, sources@, old_names, strs(paths@), j);
                                    } else {
                                        if pos > 0 {
                                            assert(sources@[pos - 1] == old_sources[pos - 1]);
                                        }
                                        assert(config_at(config, known@, sources@, pos as int) == config_at(config, known@, old_sources, pos as int));
                                        assert(names_local(&config_at(config, known@, sources@, pos as int), strs(paths@)[j]));
                                    }
                                }
                                assert(strs(paths@).contains(path@)) by {
                                    assert(strs(paths@)[old_names.len() as int] == path@);
                                }
                                assert forall|x: Seq<char>| old_names.contains(x) implies strs(paths@).contains(x) by {
                                    let w = choose|w: int| 0 <= w < old_names.len() && old_names[w] == x;
                                    assert(strs(paths@)[w] == x);
                                }
                                proof {
                                    let ints = sources@.map_values(|x: usize| x as int);
                                    assert forall|a: int, b: int|
                                        0 <= a < ints.len() && 0 <= b < ints.len() && a != b implies ints[a]
                                        != ints[b] by {
                                        assert(last_key(keys, strs(paths@)[a + 1]) == Some(ints[a]));
                                        assert(last_key(keys, strs(paths@)[b + 1]) == Some(ints[b]));
                                        if ints[a] == ints[b] {
                                            lemma_last_key(keys, strs(paths@)[a + 1]);
                                            lemma_last_key(keys, strs(paths@)[b + 1]);
                                        }
                                    }
                                    assert forall|x: int| 0 <= x < ints.len() implies 0 <= #[trigger] ints[x]
                                        < known@.len() by {}
                                    lemma_distinct_below(ints, known@.len() as int);
                                }
                            },
                            None => {
                                let ghost old_missing = strs(missing@);
                                missing.push(path.to_owned());
                                errors.push(GetRepoFileError::NotFound);
                                assert(strs(missing@) =~= old_missing.push(path@));
                                assert(strs(missing@).contains(path@)) by {
                                    assert(strs(missing@)[old_missing.len() as int] == path@);
                                }
                                assert forall|x: Seq<char>| old_missing.contains(x) implies strs(missing@).contains(x) by {
                                    let w = choose|w: int| 0 <= w < old_missing.len() && old_missing[w] == x;
                                    assert(strs(missing@)[w] == x);
                                }
                            },
                        }
                    }
                },
            }
            proof {
                match current.upstreams@[k as int] {
                    Upstream::Local(l) => {
                        if strs(missing@).contains(l.path@) {
                            let w = choose|w: int| 0 <= w < strs(missing@).len() && strs(missing@)[w] == l.path@;
                            assert(missing@[w]@ == l.path@);
                        }
                    },
                    Upstream::Remote(_) => {},
                }
            }
            k += 1;
        }
        assert forall|u: Seq<char>| names_local(current, u) implies strs(paths@).contains(u) || strs(missing@).contains(u) by {
            let i = choose|i: int|
                0 <= i < current.upstreams@.len() && match #[trigger] current.upstreams@[i] {
                    Upstream::Local(l) => l.path@ == u,
                    Upstream::Remote(_) => false,
                };
        }
        pos += 1;
    }
    LookLocations { paths, sources, missing, errors }
}

} // verus!
