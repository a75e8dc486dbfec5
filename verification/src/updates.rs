//! Update checking: version comparison and the choice of the platform's
//! release asset.  The HTTP fetch and the JSON shape stay with the caller,
//! which hands the release's fields over as plain values.

use crate::bytescan::bytes_equal;
use vstd::prelude::*;
use vstd::utf8::encode_utf8;

verus! {

/// What an update check found.
#[derive(Debug, Clone)]
pub struct UpdateInfo {
    pub current_version: String,
    pub latest_version: String,
    pub update_available: bool,
    pub release_notes: String,
    pub download_url: String,
}

/// One downloadable asset of a release, reduced to what the asset choice
/// reads: its file name and its download URL.
#[derive(Debug, Clone)]
pub struct ReleaseAsset {
    pub name: String,
    pub download_url: String,
}

/// Whether the published version counts as newer than the running one.
/// The policy is deliberately simple: any difference means newer.
pub fn version_is_greater(latest: &str, current: &str) -> (r: bool)
    ensures
        r == (latest@ != current@),
{
    let r = !bytes_equal(latest.as_bytes(), current.as_bytes());
    proof {
        vstd::utf8::encode_utf8_decode_utf8(latest@);
        vstd::utf8::encode_utf8_decode_utf8(current@);
    }
    r
}

/// `s` ends with `suffix`.
pub open spec fn ends_with_bytes(s: Seq<u8>, suffix: Seq<u8>) -> bool {
    suffix.len() <= s.len() && s.skip(s.len() - suffix.len()) == suffix
}

fn slice_ends_with(s: &[u8], suffix: &[u8]) -> (r: bool)
    ensures
        r == ends_with_bytes(s@, suffix@),
{
    if suffix.len() > s.len() {
        return false;
    }
    let start = s.len() - suffix.len();
    let mut k: usize = start;
    while k < s.len()
        invariant
            suffix@.len() <= s@.len(),
            start == s@.len() - suffix@.len(),
            start <= k <= s@.len(),
            forall|j: int| 0 <= j < k - start ==> s@[start + j] == suffix@[j],
        decreases s@.len() - k,
    {
        if s[k] != suffix[k - start] {
            proof {
                assert(s@.skip(s@.len() - suffix@.len())[k - start] == s@[k as int]);
            }
            return false;
        }
        k = k + 1;
    }
    proof {
        assert(s@.skip(s@.len() - suffix@.len()) =~= suffix@);
    }
    true
}

/// The platform's release asset: the first asset whose file name ends with
/// `platform_ext`, returned as an index into `assets`; `None` when no
/// asset's name matches.
pub fn find_platform_asset(assets: &Vec<ReleaseAsset>, platform_ext: &str) -> (r: Option<usize>)
    ensures
        match r {
            Some(i) => {
                &&& i < assets@.len()
                &&& ends_with_bytes(
                    encode_utf8(assets@[i as int].name@),
                    encode_utf8(platform_ext@),
                )
                &&& forall|j: int|
                    #![auto]
                    0 <= j < i ==> !ends_with_bytes(
                        encode_utf8(assets@[j].name@),
                        encode_utf8(platform_ext@),
                    )
            },
            None => forall|j: int|
                #![auto]
                0 <= j < assets@.len() ==> !ends_with_bytes(
                    encode_utf8(assets@[j].name@),
                    encode_utf8(platform_ext@),
                ),
        },
{
    let mut i: usize = 0;
    while i < assets.len()
        invariant
            i <= assets@.len(),
            forall|j: int|
                #![auto]
                0 <= j < i ==> !ends_with_bytes(
                    encode_utf8(assets@[j].name@),
                    encode_utf8(platform_ext@),
                ),
        decreases assets@.len() - i,
    {
        if slice_ends_with(assets[i].name.as_str().as_bytes(), platform_ext.as_bytes()) {
            return Some(i);
        }
        i = i + 1;
    }
    None
}

/// Assemble the result of an update check from the release's fields.  The
/// update is offered exactly when the published version differs from the
/// running one.
pub fn evaluate_update(
    current_version: String,
    latest_version: String,
    release_notes: String,
    download_url: String,
) -> (u: UpdateInfo)
    ensures
        u.current_version == current_version,
        u.latest_version == latest_version,
        u.release_notes == release_notes,
        u.download_url == download_url,
        u.update_available == (latest_version@ != current_version@),
{
    let update_available = version_is_greater(latest_version.as_str(), current_version.as_str());
    UpdateInfo { current_version, latest_version, update_available, release_notes, download_url }
}

} // verus!
