//! Whether the client's copy of the game's assets must be fetched again.

use crate::text::same_text;
use vstd::prelude::*;
use vstd::string::StrSliceExecFns;

verus! {

/// What to do about the assets.
#[derive(Debug, Clone, Copy, PartialEq, Eq)]
pub enum AssetPlan {
    /// The index of versions could not be fetched, but assets are here.
    KeepLocal,
    /// The assets here are of the latest version.
    UpToDate,
    /// Fetch the assets of the latest version; `replacing` tells whether
    /// assets of another version are here.
    Download { replacing: bool },
}

/// Decides from the version of the assets here, if any, and the latest
/// version that the index of versions names, if it could be fetched. With
/// neither there is nothing to go on, and the answer is `None`.
pub fn plan_assets(local: Option<&str>, latest: Option<&str>) -> (r: Option<AssetPlan>)
    ensures
        r == (match latest {
            None => match local {
                Some(_) => Some(AssetPlan::KeepLocal),
                None => None,
            },
            Some(l) => match local {
                Some(v) => if v@ == l@ {
                    Some(AssetPlan::UpToDate)
                } else {
                    Some(AssetPlan::Download { replacing: true })
                },
                None => Some(AssetPlan::Download { replacing: false }),
            },
        }),
{
    match latest {
        None => match local {
            Some(_) => Some(AssetPlan::KeepLocal),
            None => None,
        },
        Some(l) => match local {
            Some(v) => if same_text(v, l) {
                Some(AssetPlan::UpToDate)
            } else {
                Some(AssetPlan::Download { replacing: true })
            },
            None => Some(AssetPlan::Download { replacing: false }),
        },
    }
}

/// The start of the names of the asset files in the game's archive.
pub open spec fn asset_prefix() -> Seq<char> {
    seq!['a', 's', 's', 'e', 't', 's', '/']
}

/// Whether an entry of the game's archive is an asset: its name starts with
/// `assets/`.
pub fn is_asset_entry(name: &str) -> (r: bool)
    ensures
        r == asset_prefix().is_prefix_of(name@),
{
    let prefix = "assets/";
    proof {
        reveal_strlit("assets/");
        assert(prefix@ == asset_prefix());
    }
    let n = name.unicode_len();
    let p = prefix.unicode_len();
    if n < p {
        return false;
    }
    let mut i: usize = 0;
    while i < p
        invariant
            p == asset_prefix().len(),
            prefix@ == asset_prefix(),
            n == name@.len(),
            p <= n,
            i <= p,
            forall|j: int| 0 <= j < i ==> name@[j] == asset_prefix()[j],
        decreases p - i,
    {
        if name.get_char(i) != prefix.get_char(i) {
            return false;
        }
        i = i + 1;
    }
    true
}

} // verus!
