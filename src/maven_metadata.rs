//! The Maven metadata documents kept per artifact and per snapshot version.
use vstd::prelude::*;

verus! {

#[derive(Clone, Debug)]
pub struct MavenMetadata {
    pub group_id: String,
    pub artifact_id: String,
    pub versioning: Versioning,
}

#[derive(Clone, Debug)]
pub struct Versioning {
    pub latest: String,
    pub release: String,
    pub versions: Option<Versions>,
    pub snapshot: Option<Snapshot>,
    pub snapshot_versions: Option<SnapshotVersions>,
    pub last_updated: Option<String>,
}

/// A set of versions, without repetition.
#[derive(Clone, Debug)]
pub struct Versions {
    pub version: Vec<String>,
}

#[derive(Clone, Debug)]
pub struct Snapshot {
    pub timestamp: String,
    pub build_number: u64,
}

/// A set of snapshot builds, without repetition.
#[derive(Clone, Debug)]
pub struct SnapshotVersions {
    pub snapshot_version: Vec<SnapshotVersion>,
}

#[derive(Clone, Debug)]
pub struct SnapshotVersion {
    pub value: String,
    pub extension: Option<String>,
    pub classifier: Option<String>,
    pub updated: String,
}

pub open spec fn opt_view(o: Option<String>) -> Option<Seq<char>> {
    match o {
        Some(s) => Some(s@),
        None => None,
    }
}

impl View for SnapshotVersion {
    type V = (Seq<char>, Option<Seq<char>>, Option<Seq<char>>, Seq<char>);

    open spec fn view(&self) -> Self::V {
        (self.value@, opt_view(self.extension), opt_view(self.classifier), self.updated@)
    }
}

impl Versions {
    pub open spec fn set_view(&self) -> Seq<Seq<char>> {
        self.version@.map_values(|s: String| s@)
    }

    /// No version is listed twice.
    pub open spec fn wf(&self) -> bool {
        self.set_view().no_duplicates()
    }
}

impl SnapshotVersions {
    pub open spec fn set_view(&self) -> Seq<(Seq<char>, Option<Seq<char>>, Option<Seq<char>>, Seq<char>)> {
        self.snapshot_version@.map_values(|s: SnapshotVersion| s@)
    }

    /// No build is listed twice.
    pub open spec fn wf(&self) -> bool {
        self.set_view().no_duplicates()
    }
}

impl Versioning {
    pub open spec fn wf(&self) -> bool {
        &&& (self.versions matches Some(v) ==> v.wf())
        &&& (self.snapshot_versions matches Some(v) ==> v.wf())
    }

    /// The listed versions, empty where the list is absent.
    pub open spec fn version_set(&self) -> Seq<Seq<char>> {
        match self.versions {
            Some(v) => v.set_view(),
            None => Seq::empty(),
        }
    }

    /// The listed snapshot builds, empty where the list is absent.
    pub open spec fn snapshot_set(&self) -> Seq<(Seq<char>, Option<Seq<char>>, Option<Seq<char>>, Seq<char>)> {
        match self.snapshot_versions {
            Some(v) => v.set_view(),
            None => Seq::empty(),
        }
    }
}

impl MavenMetadata {
    pub open spec fn wf(&self) -> bool {
        self.versioning.wf()
    }
}

/// Whether two optional strings are equal.
pub fn opt_str_eq(a: &Option<String>, b: &Option<String>) -> (r: bool)
    ensures
        r == (opt_view(*a) == opt_view(*b)),
{
    match (a, b) {
        (Some(x), Some(y)) => crate::text::str_eq(x.as_str(), y.as_str()),
        (None, None) => true,
        _ => false,
    }
}

/// A copy of an optional string.
pub fn opt_copy(a: &Option<String>) -> (r: Option<String>)
    ensures
        opt_view(r) == opt_view(*a),
{
    match a {
        Some(x) => Some(x.clone()),
        None => None,
    }
}

impl Versions {
    /// Adds `v` unless it is listed; returns whether the set changed.
    pub fn insert(&mut self, v: String) -> (r: bool)
        requires
            old(self).wf(),
        ensures
            final(self).wf(),
            r == !old(self).set_view().contains(v@),
            final(self).set_view().to_set() == old(self).set_view().to_set().insert(v@),
    {
        let mut i: usize = 0;
        while i < self.version.len()
            invariant
                i <= self.version@.len(),
                self.version@ == old(self).version@,
                old(self).wf(),
                forall|j: int| 0 <= j < i ==> self.version@[j]@ != v@,
            decreases self.version.len() - i,
        {
            if crate::text::str_eq(self.version[i].as_str(), v.as_str()) {
                assert(self.set_view()[i as int] == v@);
                assert(self.set_view().to_set().insert(v@) =~= self.set_view().to_set());
                return false;
            }
            i += 1;
        }
        let ghost before = self.set_view();
        assert(!before.contains(v@)) by {
            assert forall|j: int| 0 <= j < before.len() implies before[j] != v@ by {
                assert(before[j] == self.version@[j]@);
            }
        }
        self.version.push(v);
        assert(self.set_view() =~= before.push(v@));
        assert(self.set_view().to_set() =~= before.to_set().insert(v@)) by {
            assert forall|x| self.set_view().to_set().contains(x) <==> before.to_set().insert(v@).contains(x) by {
                if before.to_set().insert(v@).contains(x) && x != v@ {
                    let w = choose|w: int| 0 <= w < before.len() && before[w] == x;
                    assert(self.set_view()[w] == x);
                }
                if x == v@ {
                    assert(self.set_view()[before.len() as int] == x);
                }
            }
        }
        true
    }
}

impl SnapshotVersions {
    /// Adds `v` unless an equal build is listed; returns whether the set changed.
    pub fn insert(&mut self, v: SnapshotVersion) -> (r: bool)
        requires
            old(self).wf(),
        ensures
            final(self).wf(),
            r == !old(self).set_view().contains(v@),
            final(self).set_view().to_set() == old(self).set_view().to_set().insert(v@),
    {
        let mut i: usize = 0;
        while i < self.snapshot_version.len()
            invariant
                i <= self.snapshot_version@.len(),
                self.snapshot_version@ == old(self).snapshot_version@,
                old(self).wf(),
                forall|j: int| 0 <= j < i ==> self.snapshot_version@[j]@ != v@,
            decreases self.snapshot_version.len() - i,
        {
            let e = &self.snapshot_version[i];
            if crate::text::str_eq(e.value.as_str(), v.value.as_str()) && opt_str_eq(&e.extension, &v.extension)
                && opt_str_eq(&e.classifier, &v.classifier) && crate::text::str_eq(
                e.updated.as_str(),
                v.updated.as_str(),
            ) {
                assert(self.set_view()[i as int] == v@);
                assert(self.set_view().to_set().insert(v@) =~= self.set_view().to_set());
                return false;
            }
            i += 1;
        }
        let ghost before = self.set_view();
        assert(!before.contains(v@)) by {
            assert forall|j: int| 0 <= j < before.len() implies before[j] != v@ by {
                assert(before[j] == self.snapshot_version@[j]@);
            }
        }
        self.snapshot_version.push(v);
        assert(self.set_view() =~= before.push(v@));
        assert(self.set_view().to_set() =~= before.to_set().insert(v@)) by {
            assert forall|x| self.set_view().to_set().contains(x) <==> before.to_set().insert(v@).contains(x) by {
                if before.to_set().insert(v@).contains(x) && x != v@ {
                    let w = choose|w: int| 0 <= w < before.len() && before[w] == x;
                    assert(self.set_view()[w] == x);
                }
                if x == v@ {
                    assert(self.set_view()[before.len() as int] == x);
                }
            }
        }
        true
    }
}

} // verus!
