//! The shared SDK install's on-disk layout: the root directory under the
//! user's home, the persisted registry file, the `current` version pointer
//! and the per-version directories, together with version-string rules.

use vstd::prelude::*;
use crate::paths::join_path;
use crate::paths::str_starts_with;

verus! {

/// Relies on `dirs::home_dir`: the user's home directory, read from the
/// environment, or nothing when the platform reports none.
#[verifier::external_body]
fn home_dir_string() -> (r: Option<String>) {
    dirs::home_dir().map(|p| p.to_string_lossy().to_string())
}

/// The SDK root directory: `.mpf-sdk` under the user's home directory, or
/// nothing when no home directory can be found.
pub fn sdk_root() -> (r: Option<String>)
    ensures
        r is Some ==> exists|h: Seq<char>| r.unwrap()@ == #[trigger] (h + seq!['/']
            + ".mpf-sdk"@),
{
    match home_dir_string() {
        Some(home) => {
            let joined = join_path(home.as_str(), ".mpf-sdk");
            proof {
                assert(joined@ == home@ + seq!['/'] + ".mpf-sdk"@);
            }
            Some(joined)
        },
        None => None,
    }
}

/// The persisted registry file inside the SDK root.
pub fn dev_config_path(sdk_root: &str) -> (r: String)
    ensures
        r@ == sdk_root@ + seq!['/'] + "dev.json"@,
{
    join_path(sdk_root, "dev.json")
}

/// The `current` version pointer inside the SDK root.
pub fn current_link(sdk_root: &str) -> (r: String)
    ensures
        r@ == sdk_root@ + seq!['/'] + "current"@,
{
    join_path(sdk_root, "current")
}

/// The directory of one installed SDK version inside the SDK root.
pub fn version_dir(sdk_root: &str, version: &str) -> (r: String)
    ensures
        r@ == sdk_root@ + seq!['/'] + version@,
{
    join_path(sdk_root, version)
}

/// A version string as installed: the given one when it already starts
/// with `v`, else with `v` prefixed.
pub open spec fn spec_normalized_version(version: Seq<char>) -> Seq<char> {
    if "v"@.is_prefix_of(version) {
        version
    } else {
        "v"@ + version
    }
}

/// Normalizes a version string, as `spec_normalized_version` describes.
pub fn normalize_version(version: &str) -> (r: String)
    ensures
        r@ == spec_normalized_version(version@),
{
    if str_starts_with(version, "v") {
        String::from_str(version)
    } else {
        let mut s = String::from_str("v");
        s.append(version);
        s
    }
}

/// Whether a directory name inside the SDK root names an installed
/// version: it starts with `v` or with an ASCII digit.
pub open spec fn spec_is_version_dir_name(name: Seq<char>) -> bool {
    name.len() > 0 && (name[0] == 'v' || (48 <= name[0] as u32 && name[0] as u32 <= 57))
}

/// Whether a directory name names an installed version, as
/// `spec_is_version_dir_name` describes.
pub fn is_version_dir_name(name: &str) -> (r: bool)
    ensures
        r == spec_is_version_dir_name(name@),
{
    let cs = crate::paths::chars_of(name);
    if cs.len() == 0 {
        return false;
    }
    let c = cs[0];
    if c == 'v' {
        return true;
    }
    let u = c as u32;
    48 <= u && u <= 57
}

} // verus!
