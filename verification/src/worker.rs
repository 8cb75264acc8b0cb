//! The per-item fetch/verify protocol: classifying the server's response
//! and verifying a downloaded body against its expected checksum.
//!
//! The unverified shell performs the HTTP request and the disk writes; the
//! decisions — what a status code means, whether a body may be committed to
//! its final path, what an error says — are made here.

use vstd::prelude::*;
use crate::digest::{hex_lower_of, sha256_of, sha256_hex};
use crate::item::{artifact_path_spec, download_url_spec, WorkItem};
use crate::report::{dec_digits, dec_str};

verus! {

/// What one server response means for an item.
#[derive(Clone, Copy, PartialEq, Eq, Structural, Debug)]
pub enum StatusClass {
    /// 2xx: the body is the artifact; verify it, then commit it.
    Success,
    /// 403: the upstream permanently denies this item; record it in the
    /// ledger and never ask again.
    Forbidden,
    /// Anything else: a transient failure; report it and leave the item
    /// eligible for the next run.
    Failure,
}

pub open spec fn classify_status_spec(status: u16) -> StatusClass {
    if status == 403 {
        StatusClass::Forbidden
    } else if 200 <= status < 300 {
        StatusClass::Success
    } else {
        StatusClass::Failure
    }
}

/// Classify an HTTP status code: 403 is a permanent denial, any other
/// non-2xx status a transient failure.
pub fn classify_status(status: u16) -> (c: StatusClass)
    ensures
        c == classify_status_spec(status),
{
    if status == 403 {
        StatusClass::Forbidden
    } else if 200 <= status && status < 300 {
        StatusClass::Success
    } else {
        StatusClass::Failure
    }
}

/// A per-item failure, collected by workers and drained by the reporter
/// without halting the run.
pub struct ErrorRecord {
    pub name: String,
    pub version: String,
    pub message: String,
}

/// The message reported when a downloaded body's digest is not the one the
/// catalog expects.
pub open spec fn checksum_mismatch_msg(
    path: Seq<char>,
    expected: Seq<char>,
    actual: Seq<char>,
) -> Seq<char> {
    "invalid checksum on "@ + path + ": should be "@ + expected + ", but is "@ + actual
}

/// The message reported when the server answers with a status that is
/// neither success nor a permanent denial.
pub open spec fn http_status_msg(status: int, url: Seq<char>) -> Seq<char> {
    "HTTP status "@ + dec_digits(status) + " for "@ + url
}

/// The failure record for a response whose status is neither 2xx nor 403:
/// the item stays absent from disk and from the ledger, eligible for the
/// next run.
pub fn http_failure_record(item: &WorkItem, status: u16) -> (e: ErrorRecord)
    ensures
        e.name@ == item.name@,
        e.version@ == item.version@,
        e.message@ == http_status_msg(status as int, download_url_spec(item.name@, item.version@)),
{
    let url = item.url();
    let mut m = String::new();
    m.append("HTTP status ");
    let d = dec_str(status);
    m.append(d.as_str());
    m.append(" for ");
    m.append(url.as_str());
    proof {
        assert(m@ =~= http_status_msg(
            status as int,
            download_url_spec(item.name@, item.version@),
        ));
    }
    ErrorRecord { name: item.name.clone(), version: item.version.clone(), message: m }
}

/// Whether `body` hashes to the expected lowercase hex checksum.
pub open spec fn checksum_matches(body: Seq<u8>, expected: Seq<char>) -> bool {
    hex_lower_of(sha256_of(body)) == expected
}

/// The verdict on one fully received body.
pub enum BodyVerdict {
    /// The digest matches: the partial file may be renamed to the final
    /// path.
    Commit,
    /// The digest differs: the final path must stay absent, and this record
    /// names the expected and the actual digest.
    Mismatch(ErrorRecord),
}

/// Verify a downloaded body against the item's expected checksum.
///
/// A `Commit` verdict is returned exactly when the SHA-256 digest of the
/// body equals the expected checksum — so an artifact is committed to its
/// final path only fully verified, and on a mismatch the final path stays
/// absent and the mismatch is reported with both digests.
pub fn verify_body(item: &WorkItem, body: &[u8]) -> (v: BodyVerdict)
    ensures
        v is Commit <==> checksum_matches(body@, item.cksum@),
        !checksum_matches(body@, item.cksum@) ==> (v matches BodyVerdict::Mismatch(e) && e.name@
            == item.name@ && e.version@ == item.version@ && e.message@ == checksum_mismatch_msg(
            artifact_path_spec(item.name@, item.version@),
            item.cksum@,
            hex_lower_of(sha256_of(body@)),
        )),
{
    let actual = sha256_hex(body);
    if actual == item.cksum {
        BodyVerdict::Commit
    } else {
        let path = item.path();
        let mut m = String::new();
        m.append("invalid checksum on ");
        m.append(path.as_str());
        m.append(": should be ");
        m.append(item.cksum.as_str());
        m.append(", but is ");
        m.append(actual.as_str());
        proof {
            assert(m@ =~= checksum_mismatch_msg(
                artifact_path_spec(item.name@, item.version@),
                item.cksum@,
                hex_lower_of(sha256_of(body@)),
            ));
        }
        BodyVerdict::Mismatch(
            ErrorRecord {
                name: item.name.clone(),
                version: item.version.clone(),
                message: m,
            },
        )
    }
}

} // verus!
