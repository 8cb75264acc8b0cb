//! Work items and the deterministic mapping from a package's name and
//! version to its artifact path, partial-download path and download URL.

use vstd::prelude::*;

verus! {

/// Host that serves the artifact store.
pub const DOWNLOAD_HOST: &'static str = "static.crates.io";

/// One pending fetch task: a package version together with the lowercase
/// hex SHA-256 checksum its content is expected to have.
pub struct WorkItem {
    pub name: String,
    pub version: String,
    pub cksum: String,
}

impl WorkItem {
    /// A name or version may not contain a path separator (so that distinct
    /// items map to distinct artifact paths) nor a line break (so that a
    /// ledger entry is exactly one line).
    pub open spec fn wf(self) -> bool {
        valid_component(self.name@) && valid_component(self.version@)
    }

    pub open spec fn key(self) -> (Seq<char>, Seq<char>) {
        (self.name@, self.version@)
    }
}

/// A path or URL component: non-empty, no `/` and no line breaks.
pub open spec fn valid_component(s: Seq<char>) -> bool {
    s.len() > 0 && forall|i: int|
        0 <= i < s.len() ==> s[i] != '/' && s[i] != '\n' && s[i] != '\r'
}

/// `crates/<name>/<name>-<version>.crate`
pub open spec fn artifact_path_spec(name: Seq<char>, version: Seq<char>) -> Seq<char> {
    "crates/"@ + name + "/"@ + name + "-"@ + version + ".crate"@
}

/// `<artifact path>.partial`
pub open spec fn partial_path_spec(name: Seq<char>, version: Seq<char>) -> Seq<char> {
    artifact_path_spec(name, version) + ".partial"@
}

/// `https://<host>/<artifact path>`
pub open spec fn download_url_spec(name: Seq<char>, version: Seq<char>) -> Seq<char> {
    "https://"@ + DOWNLOAD_HOST@ + "/"@ + artifact_path_spec(name, version)
}

/// Relative path under which a fully verified artifact is visible.
pub fn artifact_path(name: &str, version: &str) -> (r: String)
    ensures
        r@ == artifact_path_spec(name@, version@),
{
    let mut s = String::new();
    s.append("crates/");
    s.append(name);
    s.append("/");
    s.append(name);
    s.append("-");
    s.append(version);
    s.append(".crate");
    proof {
        assert(s@ =~= artifact_path_spec(name@, version@));
    }
    s
}

/// Relative path of the transient, not-yet-verified download.
pub fn partial_path(name: &str, version: &str) -> (r: String)
    ensures
        r@ == partial_path_spec(name@, version@),
{
    let mut s = artifact_path(name, version);
    s.append(".partial");
    s
}

/// URL the artifact is fetched from.
pub fn download_url(name: &str, version: &str) -> (r: String)
    ensures
        r@ == download_url_spec(name@, version@),
{
    let mut s = String::new();
    s.append("https://");
    s.append(DOWNLOAD_HOST);
    s.append("/");
    let p = artifact_path(name, version);
    s.append(p.as_str());
    proof {
        assert(s@ =~= download_url_spec(name@, version@));
    }
    s
}

/// Distinct package versions occupy distinct artifact paths: the directory
/// part of the path pins the name (names contain no `/`), and the rest then
/// pins the version. Workers therefore never race on one final path.
pub proof fn lemma_artifact_path_injective(
    n1: Seq<char>,
    v1: Seq<char>,
    n2: Seq<char>,
    v2: Seq<char>,
)
    requires
        valid_component(n1),
        valid_component(n2),
        n1 != n2 || v1 != v2,
    ensures
        artifact_path_spec(n1, v1) != artifact_path_spec(n2, v2),
{
    reveal_strlit("crates/");
    reveal_strlit("/");
    reveal_strlit("-");
    reveal_strlit(".crate");
    let p1 = artifact_path_spec(n1, v1);
    let p2 = artifact_path_spec(n2, v2);
    let l1 = n1.len() as int;
    let l2 = n2.len() as int;
    assert(p1.len() == 15 + 2 * l1 + v1.len());
    assert(p2.len() == 15 + 2 * l2 + v2.len());
    if p1 == p2 {
        assert(forall|i: int| 0 <= i < p1.len() ==> p1[i] == p2[i]);
        if l1 < l2 {
            assert(p1[7 + l1] == '/');
            assert(p2[7 + l1] == n2[l1]);
            assert(false);
        } else if l2 < l1 {
            assert(p2[7 + l2] == '/');
            assert(p1[7 + l2] == n1[l2]);
            assert(false);
        } else {
            assert forall|i: int| 0 <= i < l1 implies n1[i] == n2[i] by {
                assert(p1[7 + i] == n1[i]);
                assert(p2[7 + i] == n2[i]);
            }
            assert(n1 =~= n2);
            assert(v1.len() == v2.len());
            assert forall|i: int| 0 <= i < v1.len() implies v1[i] == v2[i] by {
                assert(p1[9 + 2 * l1 + i] == v1[i]);
                assert(p2[9 + 2 * l2 + i] == v2[i]);
            }
            assert(v1 =~= v2);
            assert(false);
        }
    }
}

impl WorkItem {
    /// Final path of this item's artifact.
    pub fn path(&self) -> (r: String)
        ensures
            r@ == artifact_path_spec(self.name@, self.version@),
    {
        artifact_path(self.name.as_str(), self.version.as_str())
    }

    /// Path of this item's in-progress download.
    pub fn partial(&self) -> (r: String)
        ensures
            r@ == partial_path_spec(self.name@, self.version@),
    {
        partial_path(self.name.as_str(), self.version.as_str())
    }

    /// URL this item is fetched from.
    pub fn url(&self) -> (r: String)
        ensures
            r@ == download_url_spec(self.name@, self.version@),
    {
        download_url(self.name.as_str(), self.version.as_str())
    }
}

} // verus!
