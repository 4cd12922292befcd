//! The toolchain detector's decisions: which toolkit root to use given the
//! environment and the well-known install locations, and which compiler
//! directory qualifies. Reading the environment and probing directories is
//! the caller's part; the choices made from those observations are here.

use vstd::prelude::*;
use crate::paths::first_flagged;
use crate::paths::join_path;
use crate::paths::parent_dir_fwd;
use crate::paths::spec_first_flagged;
use crate::paths::spec_parent_fwd;
use crate::paths::str_starts_with;
use crate::paths::str_lt;
use crate::paths::lex_lt;
use crate::resolve::Platform;

verus! {

/// The chosen toolkit root: the primary environment variable, else the
/// secondary one, else the first well-known candidate that exists.
pub open spec fn spec_toolkit_root(
    env_primary: Option<Seq<char>>,
    env_secondary: Option<Seq<char>>,
    candidates: Seq<Seq<char>>,
    exists: Seq<bool>,
) -> Option<Seq<char>> {
    if env_primary is Some {
        env_primary
    } else if env_secondary is Some {
        env_secondary
    } else {
        spec_first_flagged(candidates, exists)
    }
}

/// Chooses the toolkit root, as `spec_toolkit_root` describes: the two
/// environment variables in fixed priority order, then the first existing
/// well-known location.
pub fn choose_toolkit_root(
    env_primary: Option<String>,
    env_secondary: Option<String>,
    candidates: &Vec<String>,
    exists: &Vec<bool>,
) -> (r: Option<String>)
    requires
        exists@.len() == candidates@.len(),
    ensures
        r.deep_view() == spec_toolkit_root(
            env_primary.deep_view(),
            env_secondary.deep_view(),
            candidates.deep_view(),
            exists@,
        ),
{
    match env_primary {
        Some(v) => Some(v),
        None => {
            match env_secondary {
                Some(v) => Some(v),
                None => first_flagged(candidates, exists),
            }
        },
    }
}

/// The fixed list of well-known toolkit install locations for the
/// platform.
pub fn well_known_toolkit_paths(platform: Platform) -> (r: Vec<String>)
    ensures
        platform == Platform::Windows ==> r.deep_view() =~= seq![
            "C:\\Qt\\6.8.3\\mingw_64"@,
            "C:\\Qt\\6.8.2\\mingw_64"@,
            "C:\\Qt\\6.8.1\\mingw_64"@,
            "C:\\Qt\\6.8.0\\mingw_64"@,
        ],
        platform == Platform::Unix ==> r.deep_view() =~= seq![
            "/opt/qt6"@,
            "/usr/local/Qt-6.8.3"@,
            "/usr/lib/qt6"@,
        ],
{
    let mut r: Vec<String> = Vec::new();
    match platform {
        Platform::Windows => {
            r.push(String::from_str("C:\\Qt\\6.8.3\\mingw_64"));
            r.push(String::from_str("C:\\Qt\\6.8.2\\mingw_64"));
            r.push(String::from_str("C:\\Qt\\6.8.1\\mingw_64"));
            r.push(String::from_str("C:\\Qt\\6.8.0\\mingw_64"));
        },
        Platform::Unix => {
            r.push(String::from_str("/opt/qt6"));
            r.push(String::from_str("/usr/local/Qt-6.8.3"));
            r.push(String::from_str("/usr/lib/qt6"));
        },
    }
    r
}

/// The vendor `Tools` directory: two parents above the toolkit root.
pub open spec fn spec_vendor_tools_dir(toolkit_root: Seq<char>) -> Option<Seq<char>> {
    match spec_parent_fwd(toolkit_root) {
        Some(p1) => match crate::paths::spec_parent(p1) {
            Some(p2) => Some(p2 + seq!['/'] + "Tools"@),
            None => None,
        },
        None => None,
    }
}

/// Walks from the toolkit root up to the vendor root and names its
/// `Tools` directory, as `spec_vendor_tools_dir` describes.
pub fn vendor_tools_dir(toolkit_root: &str) -> (r: Option<String>)
    ensures
        r.deep_view() == spec_vendor_tools_dir(toolkit_root@),
{
    match parent_dir_fwd(toolkit_root) {
        Some(p1) => {
            match crate::paths::parent_path(p1.as_str()) {
                Some(p2) => Some(join_path(p2.as_str(), "Tools")),
                None => None,
            }
        },
        None => None,
    }
}

/// Whether a `Tools` entry qualifies as a compiler directory: it is a
/// directory, its name carries the fixed prefix, and its `bin` holds both
/// compilers.
pub open spec fn compiler_dir_ok(name: Seq<char>, is_dir: bool, has_both: bool) -> bool {
    is_dir && has_both && "mingw"@.is_prefix_of(name)
}

/// Picks the compiler directory: among the qualifying entries, the one
/// that sorts first in descending name order — the greatest name, so the
/// newest-looking version wins.
pub fn pick_compiler_dir(names: &Vec<String>, is_dir: &Vec<bool>, has_both: &Vec<bool>) -> (r:
    Option<String>)
    requires
        is_dir@.len() == names@.len(),
        has_both@.len() == names@.len(),
    ensures
        match r.deep_view() {
            Some(d) => exists|i: int|
                0 <= i < names.deep_view().len() && compiler_dir_ok(
                    #[trigger] names.deep_view()[i],
                    is_dir@[i],
                    has_both@[i],
                ) && names.deep_view()[i] == d && (forall|j: int|
                    0 <= j < names.deep_view().len() && compiler_dir_ok(
                        #[trigger] names.deep_view()[j],
                        is_dir@[j],
                        has_both@[j],
                    ) ==> !lex_lt(d, names.deep_view()[j])),
            None => forall|i: int|
                0 <= i < names.deep_view().len() ==> !compiler_dir_ok(
                    #[trigger] names.deep_view()[i],
                    is_dir@[i],
                    has_both@[i],
                ),
        },
{
    let n = names.len();
    let mut best: Option<String> = None;
    let ghost nv = names.deep_view();
    let mut i: usize = 0;
    while i < n
        invariant
            i <= n,
            n == names@.len(),
            is_dir@.len() == n,
            has_both@.len() == n,
            nv == names.deep_view(),
            match best.deep_view() {
                Some(d) => exists|k: int|
                    0 <= k < i && compiler_dir_ok(#[trigger] nv[k], is_dir@[k], has_both@[k])
                        && nv[k] == d && (forall|j: int|
                        0 <= j < i && compiler_dir_ok(#[trigger] nv[j], is_dir@[j], has_both@[j])
                            ==> !lex_lt(d, nv[j])),
                None => forall|j: int|
                    0 <= j < i ==> !compiler_dir_ok(#[trigger] nv[j], is_dir@[j], has_both@[j]),
            },
        decreases n - i,
    {
        let qualifies = is_dir[i] && has_both[i] && str_starts_with(names[i].as_str(), "mingw");
        if qualifies {
            let replace = match &best {
                Some(b) => str_lt(b.as_str(), names[i].as_str()),
                None => true,
            };
            if replace {
                proof {
                    match best.deep_view() {
                        Some(d) => {
                            assert forall|j: int|
                                0 <= j < i + 1 && compiler_dir_ok(
                                    #[trigger] nv[j],
                                    is_dir@[j],
                                    has_both@[j],
                                ) implies !lex_lt(nv[i as int], nv[j]) by {
                                if j < i {
                                    assert(!lex_lt(d, nv[j]));
                                    if lex_lt(nv[i as int], nv[j]) {
                                        crate::paths::lemma_lex_trans(d, nv[i as int], nv[j]);
                                    }
                                } else {
                                    crate::paths::lemma_lex_irrefl(nv[i as int]);
                                }
                            }
                        },
                        None => {
                            assert forall|j: int|
                                0 <= j < i + 1 && compiler_dir_ok(
                                    #[trigger] nv[j],
                                    is_dir@[j],
                                    has_both@[j],
                                ) implies !lex_lt(nv[i as int], nv[j]) by {
                                if j == i {
                                    crate::paths::lemma_lex_irrefl(nv[i as int]);
                                }
                            }
                        },
                    }
                }
                best = Some(names[i].clone());
                proof {
                    assert(best.deep_view() == Some(nv[i as int]));
                    assert(compiler_dir_ok(nv[i as int], is_dir@[i as int], has_both@[i as int]));
                    assert(exists|k: int|
                        0 <= k < i + 1 && compiler_dir_ok(
                            #[trigger] nv[k],
                            is_dir@[k],
                            has_both@[k],
                        ) && nv[k] == nv[i as int] && (forall|j: int|
                            0 <= j < i + 1 && compiler_dir_ok(
                                #[trigger] nv[j],
                                is_dir@[j],
                                has_both@[j],
                            ) ==> !lex_lt(nv[i as int], nv[j])));
                }
            } else {
                proof {
                    let d = best.deep_view().unwrap();
                    assert(!lex_lt(d, nv[i as int]));
                }
            }
        }
        i += 1;
    }
    best
}

/// The compiler pair inside a chosen directory: the C and C++ compilers
/// under its `bin` subdirectory.
pub fn compiler_pair_paths(dir: &str) -> (r: (String, String))
    ensures
        r.0@ == dir@ + seq!['/'] + "bin"@ + seq!['/'] + "gcc.exe"@,
        r.1@ == dir@ + seq!['/'] + "bin"@ + seq!['/'] + "g++.exe"@,
{
    let bin = join_path(dir, "bin");
    let gcc = join_path(bin.as_str(), "gcc.exe");
    let gpp = join_path(bin.as_str(), "g++.exe");
    (gcc, gpp)
}

} // verus!
