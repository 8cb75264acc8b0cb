//! The catalog: package name -> version -> expected checksum, assembled
//! from per-package metadata files by an outside collaborator.
//!
//! Reading the metadata directory, fetching it over git and parsing each
//! JSON line are the unverified shell's work; the grouping, the uniqueness
//! rules and the update plan are decided here.

use vstd::prelude::*;
use crate::item::valid_component;

verus! {

/// Directory the catalog mirror lives in.
pub const INDEX_DIR: &'static str = "crates.io-index";

/// What the catalog records about one version of one package.
pub struct CrateData {
    /// Lowercase hex SHA-256 checksum the artifact must have.
    pub cksum: String,
    /// Accepted from the catalog but unused by this core.
    pub yanked: bool,
}

/// One version of a package.
pub struct VersionEntry {
    pub version: String,
    pub data: CrateData,
}

/// All recorded versions of one package, each version at most once.
pub struct CrateVersions {
    pub name: String,
    pub versions: Vec<VersionEntry>,
}

/// Why a catalog update was rejected.
#[derive(Clone, Copy, PartialEq, Eq, Structural, Debug)]
pub enum IndexError {
    /// A second metadata file claims an already-recorded package.
    DuplicateCrate,
    /// A package name with a path separator or line break.
    InvalidName,
    /// A version with a path separator or line break.
    InvalidVersion,
}

impl CrateVersions {
    pub open spec fn wf(&self) -> bool {
        &&& valid_component(self.name@)
        &&& forall|i: int|
            0 <= i < self.versions@.len() ==> valid_component(#[trigger] self.versions@[i].version@)
        &&& forall|i: int, j: int|
            0 <= i < j < self.versions@.len() ==> self.versions@[i].version@
                != self.versions@[j].version@
    }

    /// Begin the record of one package; the name must be usable as a path
    /// component.
    pub fn new(name: String) -> (r: Result<CrateVersions, IndexError>)
        ensures
            r matches Ok(cv) ==> cv.wf() && cv.name@ == name@ && cv.versions@ =~= Seq::<
                VersionEntry,
            >::empty(),
            r is Ok <==> valid_component(name@),
            r is Err ==> r == Err::<CrateVersions, IndexError>(IndexError::InvalidName),
    {
        if component_ok(name.as_str()) {
            Ok(CrateVersions { name, versions: Vec::new() })
        } else {
            Err(IndexError::InvalidName)
        }
    }

    /// Record one version; a version recorded twice keeps the data given
    /// last, as the catalog's most recent word wins.
    pub fn upsert(&mut self, version: String, data: CrateData) -> (r: Result<(), IndexError>)
        requires
            old(self).wf(),
        ensures
            final(self).wf(),
            final(self).name@ == old(self).name@,
            r is Ok <==> valid_component(version@),
            r is Err ==> r == Err::<(), IndexError>(IndexError::InvalidVersion) && *final(self)
                == *old(self),
            r is Ok ==> (final(self).versions@ == old(self).versions@.push(
                VersionEntry { version, data },
            ) && (forall|i: int|
                0 <= i < old(self).versions@.len()
                    ==> #[trigger] old(self).versions@[i].version@ != version@)) || (exists|j: int|
                0 <= j < old(self).versions@.len() && old(self).versions@[j].version@ == version@
                    && final(self).versions@ == old(self).versions@.remove(j).push(
                    VersionEntry { version, data },
                )),
    {
        if !component_ok(version.as_str()) {
            return Err(IndexError::InvalidVersion);
        }
        let n = self.versions.len();
        let mut i: usize = 0;
        while i < n
            invariant
                i <= n,
                n == self.versions@.len(),
                *self == *old(self),
                old(self).wf(),
                forall|j: int| 0 <= j < i ==> #[trigger] self.versions@[j].version@ != version@,
            decreases n - i,
        {
            if self.versions[i].version == version {
                let ghost oldv = self.versions@;
                let ghost jj = i as int;
                self.versions.remove(i);
                self.versions.push(VersionEntry { version, data });
                proof {
                    assert(oldv[jj].version@ == self.versions@.last().version@);
                    assert(self.versions@ == oldv.remove(jj).push(self.versions@.last()));
                    assert forall|a: int, b: int|
                        0 <= a < b < self.versions@.len() implies self.versions@[a].version@
                        != self.versions@[b].version@ by {
                        if b < self.versions@.len() - 1 {
                            if a < jj && b < jj {
                                assert(self.versions@[a] == oldv[a]);
                                assert(self.versions@[b] == oldv[b]);
                            } else if a < jj {
                                assert(self.versions@[a] == oldv[a]);
                                assert(self.versions@[b] == oldv[b + 1]);
                            } else {
                                assert(self.versions@[a] == oldv[a + 1]);
                                assert(self.versions@[b] == oldv[b + 1]);
                            }
                        } else {
                            if a < jj {
                                assert(self.versions@[a] == oldv[a]);
                            } else {
                                assert(self.versions@[a] == oldv[a + 1]);
                            }
                        }
                    }
                }
                return Ok(());
            }
            i = i + 1;
        }
        self.versions.push(VersionEntry { version, data });
        return Ok(());
    }
}

/// Whether `s` can serve as a path component: non-empty, no `/`, no line
/// break.
pub fn component_ok(s: &str) -> (r: bool)
    ensures
        r == valid_component(s@),
{
    let n = s.unicode_len();
    if n == 0 {
        return false;
    }
    let mut i: usize = 0;
    while i < n
        invariant
            i <= n,
            n == s@.len(),
            forall|j: int| 0 <= j < i ==> s@[j] != '/' && s@[j] != '\n' && s@[j] != '\r',
        decreases n - i,
    {
        let c = s.get_char(i);
        if c == '/' || c == '\n' || c == '\r' {
            return false;
        }
        i = i + 1;
    }
    true
}

/// Whether a directory entry of the catalog mirror is hidden and so
/// skipped when the catalog is read.
pub fn is_hidden_name(name: &str) -> (r: bool)
    ensures
        r == (name@.len() > 0 && name@[0] == '.'),
{
    if name.unicode_len() == 0 {
        false
    } else {
        name.get_char(0) == '.'
    }
}

/// Lowercase image of an ASCII uppercase letter; any other character is
/// itself.
pub open spec fn lower_char(c: char) -> char {
    if 65 <= c as u32 && c as u32 <= 90 {
        (((c as u32) + 32) as u8) as char
    } else {
        c
    }
}

/// ASCII-case-insensitive equality of two character sequences.
pub open spec fn eq_ignore_ascii_case_spec(a: Seq<char>, b: Seq<char>) -> bool {
    a.len() == b.len() && forall|i: int|
        0 <= i < a.len() ==> lower_char(a[i]) == lower_char(b[i])
}

/// Whether two strings agree up to ASCII case, as when a metadata file's
/// name is checked against the package name recorded inside it.
pub fn ascii_eq_ignore_case(a: &str, b: &str) -> (r: bool)
    ensures
        r == eq_ignore_ascii_case_spec(a@, b@),
{
    let na = a.unicode_len();
    let nb = b.unicode_len();
    if na != nb {
        return false;
    }
    let mut i: usize = 0;
    while i < na
        invariant
            i <= na,
            na == a@.len(),
            na == b@.len(),
            forall|j: int| 0 <= j < i ==> lower_char(a@[j]) == lower_char(b@[j]),
        decreases na - i,
    {
        let ca = a.get_char(i);
        let cb = b.get_char(i);
        let la = if ca as u32 >= 65 && ca as u32 <= 90 {
            ((ca as u32 + 32) as u8) as char
        } else {
            ca
        };
        let lb = if cb as u32 >= 65 && cb as u32 <= 90 {
            ((cb as u32 + 32) as u8) as char
        } else {
            cb
        };
        if la != lb {
            return false;
        }
        i = i + 1;
    }
    true
}

/// One step of the catalog update plan, run as a git command by the shell.
#[derive(Clone, Copy, PartialEq, Eq, Structural, Debug)]
pub enum GitStep {
    /// Clone the catalog mirror, absent so far.
    CloneIndex,
    /// Fetch the mirror's latest state.
    FetchIndex,
    /// Reset the working tree to the fetched state.
    ResetIndex,
}

/// The steps that bring the catalog mirror up to date: a clone when it is
/// not yet on disk, then a fetch and a hard reset.
pub open spec fn update_plan(index_present: bool) -> Seq<GitStep> {
    if index_present {
        seq![GitStep::FetchIndex, GitStep::ResetIndex]
    } else {
        seq![GitStep::CloneIndex, GitStep::FetchIndex, GitStep::ResetIndex]
    }
}

/// The argument list of one update step's git command.
pub open spec fn git_args_spec(step: GitStep) -> Seq<Seq<char>> {
    match step {
        GitStep::CloneIndex => seq!["clone"@, "https://github.com/rust-lang/crates.io-index"@],
        GitStep::FetchIndex => seq!["-C"@, INDEX_DIR@, "fetch"@],
        GitStep::ResetIndex => seq![
            "-C"@,
            INDEX_DIR@,
            "reset"@,
            "--hard"@,
            "origin/master"@,
        ],
    }
}

/// Arguments for one update step, handed to the shell to spawn git with.
pub fn git_args(step: GitStep) -> (r: Vec<String>)
    ensures
        r.deep_view() == git_args_spec(step),
{
    let mut r: Vec<String> = Vec::new();
    match step {
        GitStep::CloneIndex => {
            r.push("clone".to_owned());
            r.push("https://github.com/rust-lang/crates.io-index".to_owned());
        },
        GitStep::FetchIndex => {
            r.push("-C".to_owned());
            r.push(INDEX_DIR.to_owned());
            r.push("fetch".to_owned());
        },
        GitStep::ResetIndex => {
            r.push("-C".to_owned());
            r.push(INDEX_DIR.to_owned());
            r.push("reset".to_owned());
            r.push("--hard".to_owned());
            r.push("origin/master".to_owned());
        },
    }
    proof {
        assert(r.deep_view() =~= git_args_spec(step));
    }
    r
}

/// The catalog as one run sees it: each package at most once, with its
/// versions.
pub struct Index {
    pub crates: Vec<CrateVersions>,
}

/// Total number of versions over a prefix of the catalog.
pub open spec fn total_versions_spec(crates: Seq<CrateVersions>) -> int
    decreases crates.len(),
{
    if crates.len() == 0 {
        0
    } else {
        total_versions_spec(crates.drop_last()) + crates.last().versions@.len()
    }
}

impl Index {
    pub open spec fn wf(&self) -> bool {
        &&& forall|i: int| 0 <= i < self.crates@.len() ==> (#[trigger] self.crates@[i]).wf()
        &&& forall|i: int, j: int|
            0 <= i < j < self.crates@.len() ==> self.crates@[i].name@ != self.crates@[j].name@
    }

    pub fn new() -> (r: Index)
        ensures
            r.wf(),
            r.crates@ =~= Seq::<CrateVersions>::empty(),
    {
        Index { crates: Vec::new() }
    }

    /// The steps that bring the catalog mirror up to date, given whether
    /// its directory already exists. The shell runs them in order.
    pub fn update(index_present: bool) -> (r: Vec<GitStep>)
        ensures
            r@ == update_plan(index_present),
    {
        let mut r: Vec<GitStep> = Vec::new();
        if !index_present {
            r.push(GitStep::CloneIndex);
        }
        r.push(GitStep::FetchIndex);
        r.push(GitStep::ResetIndex);
        proof {
            assert(r@ =~= update_plan(index_present));
        }
        r
    }

    /// Adopt one package's record; a package already recorded is refused,
    /// as two metadata files for one package would make artifact paths
    /// ambiguous.
    pub fn add_crate(&mut self, cv: CrateVersions) -> (r: Result<(), IndexError>)
        requires
            old(self).wf(),
            cv.wf(),
        ensures
            final(self).wf(),
            r is Ok <==> (forall|i: int|
                0 <= i < old(self).crates@.len()
                    ==> (#[trigger] old(self).crates@[i]).name@ != cv.name@),
            r is Ok ==> final(self).crates@ == old(self).crates@.push(cv),
            r is Err ==> *final(self) == *old(self) && r == Err::<(), IndexError>(
                IndexError::DuplicateCrate,
            ),
    {
        let n = self.crates.len();
        let mut i: usize = 0;
        while i < n
            invariant
                i <= n,
                n == self.crates@.len(),
                *self == *old(self),
                old(self).wf(),
                cv.wf(),
                forall|j: int| 0 <= j < i ==> (#[trigger] self.crates@[j]).name@ != cv.name@,
            decreases n - i,
        {
            if self.crates[i].name == cv.name {
                return Err(IndexError::DuplicateCrate);
            }
            i = i + 1;
        }
        self.crates.push(cv);
        return Ok(());
    }

    pub fn crate_count(&self) -> (r: usize)
        ensures
            r == self.crates@.len(),
    {
        self.crates.len()
    }

    /// Total number of catalog versions, `None` if it cannot be counted in
    /// a machine word.
    pub fn total_versions(&self) -> (r: Option<usize>)
        ensures
            r matches Some(t) ==> t == total_versions_spec(self.crates@),
            r is None ==> total_versions_spec(self.crates@) > usize::MAX,
    {
        let n = self.crates.len();
        let mut acc: usize = 0;
        let mut i: usize = 0;
        while i < n
            invariant
                i <= n,
                n == self.crates@.len(),
                acc == total_versions_spec(self.crates@.subrange(0, i as int)),
            decreases n - i,
        {
            let len = self.crates[i].versions.len();
            proof {
                assert(self.crates@.subrange(0, i as int + 1).drop_last() =~= self.crates@.subrange(
                    0,
                    i as int,
                ));
                assert(self.crates@.subrange(0, i as int + 1).last() == self.crates@[i as int]);
            }
            if len <= usize::MAX - acc {
                acc = acc + len;
            } else {
                proof {
                    lemma_total_versions_monotone(self.crates@, i as int + 1);
                }
                return None;
            }
            i = i + 1;
        }
        proof {
            assert(self.crates@.subrange(0, n as int) =~= self.crates@);
        }
        Some(acc)
    }
}

/// The total over a prefix never exceeds the total over the whole catalog.
proof fn lemma_total_versions_monotone(crates: Seq<CrateVersions>, k: int)
    requires
        0 <= k <= crates.len(),
    ensures
        total_versions_spec(crates.subrange(0, k)) <= total_versions_spec(crates),
    decreases crates.len() - k,
{
    if k == crates.len() {
        assert(crates.subrange(0, k) =~= crates);
    } else {
        lemma_total_versions_monotone(crates, k + 1);
        assert(crates.subrange(0, k + 1).drop_last() =~= crates.subrange(0, k));
        assert(crates.subrange(0, k + 1).last() == crates[k]);
    }
}

} // verus!
