use vstd::prelude::*;

use crate::options::string_views;

verus! {

broadcast use vstd::string::group_string_axioms;

/// The operating-system family that decides where Typst keeps its files.
#[derive(Clone, Copy, PartialEq, Eq, Structural, Debug)]
pub enum Platform {
    Windows,
    MacOs,
    /// Any Unix other than macOS.
    Unix,
}

/// The environment variables that Typst's directories are derived from.
/// Each is `None` when the variable is unset or not valid Unicode.
#[derive(Clone, Debug, PartialEq)]
pub struct DirEnv {
    pub local_app_data: Option<String>,
    pub home: Option<String>,
    pub xdg_data_home: Option<String>,
    pub xdg_cache_home: Option<String>,
}

/// A variable's value, or the current directory `.` in its place.
pub open spec fn value_or_dot(v: Option<String>) -> Seq<char> {
    match v {
        Some(s) => s@,
        None => seq!['.'],
    }
}

/// Typst's data directory, as the components that are joined to form it.
pub open spec fn data_dir_components(platform: Platform, env: DirEnv) -> Seq<Seq<char>> {
    match platform {
        Platform::Windows => seq![value_or_dot(env.local_app_data), "typst"@],
        Platform::MacOs => seq![
            value_or_dot(env.home),
            "Library"@,
            "Application Support"@,
            "typst"@,
        ],
        Platform::Unix => match env.xdg_data_home {
            Some(dir) => seq![dir@, "typst"@],
            None => seq![value_or_dot(env.home), ".local"@, "share"@, "typst"@],
        },
    }
}

/// Typst's cache directory, as the components that are joined to form it.
pub open spec fn cache_dir_components(platform: Platform, env: DirEnv) -> Seq<Seq<char>> {
    match platform {
        Platform::Windows => seq![value_or_dot(env.local_app_data), "typst"@],
        Platform::MacOs => seq![value_or_dot(env.home), "Library"@, "Caches"@, "typst"@],
        Platform::Unix => match env.xdg_cache_home {
            Some(dir) => seq![dir@, "typst"@],
            None => seq![value_or_dot(env.home), ".cache"@, "typst"@],
        },
    }
}

fn owned_or_dot(v: &Option<String>) -> (s: String)
    ensures
        s@ == value_or_dot(*v),
{
    match v {
        Some(s) => s.clone(),
        None => {
            let s = ".".to_string();
            proof {
                reveal_strlit(".");
            }
            s
        },
    }
}

fn component(c: &str) -> (s: String)
    ensures
        s@ == c@,
{
    c.to_string()
}

/// The directory where Typst keeps its data, such as installed packages.
pub fn typst_data_dir(platform: Platform, env: &DirEnv) -> (dir: Vec<String>)
    ensures
        string_views(dir@) == data_dir_components(platform, *env),
        platform == Platform::Windows ==> string_views(dir@) == seq![
            value_or_dot(env.local_app_data),
            "typst"@,
        ],
        platform == Platform::MacOs ==> string_views(dir@) == seq![
            value_or_dot(env.home),
            "Library"@,
            "Application Support"@,
            "typst"@,
        ],
        platform == Platform::Unix ==> match env.xdg_data_home {
            Some(d) => string_views(dir@) == seq![d@, "typst"@],
            None => string_views(dir@) == seq![
                value_or_dot(env.home),
                ".local"@,
                "share"@,
                "typst"@,
            ],
        },
{
    let mut dir: Vec<String> = Vec::new();
    match platform {
        Platform::Windows => {
            dir.push(owned_or_dot(&env.local_app_data));
            dir.push(component("typst"));
        },
        Platform::MacOs => {
            dir.push(owned_or_dot(&env.home));
            dir.push(component("Library"));
            dir.push(component("Application Support"));
            dir.push(component("typst"));
        },
        Platform::Unix => match &env.xdg_data_home {
            Some(d) => {
                dir.push(d.clone());
                dir.push(component("typst"));
            },
            None => {
                dir.push(owned_or_dot(&env.home));
                dir.push(component(".local"));
                dir.push(component("share"));
                dir.push(component("typst"));
            },
        },
    }
    assert(string_views(dir@) =~= data_dir_components(platform, *env));
    dir
}

/// The directory where Typst caches downloaded files, such as packages.
pub fn typst_cache_dir(platform: Platform, env: &DirEnv) -> (dir: Vec<String>)
    ensures
        string_views(dir@) == cache_dir_components(platform, *env),
        platform == Platform::Windows ==> string_views(dir@) == seq![
            value_or_dot(env.local_app_data),
            "typst"@,
        ],
        platform == Platform::MacOs ==> string_views(dir@) == seq![
            value_or_dot(env.home),
            "Library"@,
            "Caches"@,
            "typst"@,
        ],
        platform == Platform::Unix ==> match env.xdg_cache_home {
            Some(d) => string_views(dir@) == seq![d@, "typst"@],
            None => string_views(dir@) == seq![value_or_dot(env.home), ".cache"@, "typst"@],
        },
{
    let mut dir: Vec<String> = Vec::new();
    match platform {
        Platform::Windows => {
            dir.push(owned_or_dot(&env.local_app_data));
            dir.push(component("typst"));
        },
        Platform::MacOs => {
            dir.push(owned_or_dot(&env.home));
            dir.push(component("Library"));
            dir.push(component("Caches"));
            dir.push(component("typst"));
        },
        Platform::Unix => match &env.xdg_cache_home {
            Some(d) => {
                dir.push(d.clone());
                dir.push(component("typst"));
            },
            None => {
                dir.push(owned_or_dot(&env.home));
                dir.push(component(".cache"));
                dir.push(component("typst"));
            },
        },
    }
    assert(string_views(dir@) =~= cache_dir_components(platform, *env));
    dir
}

/// On Windows, Typst keeps its data and its cache in one directory.
pub proof fn lemma_windows_data_dir_is_cache_dir(env: DirEnv)
    ensures
        data_dir_components(Platform::Windows, env) == cache_dir_components(
            Platform::Windows,
            env,
        ),
{
}

/// Both directories end in a component named `typst`, whatever the platform
/// and the environment.
pub proof fn lemma_dirs_end_in_typst(platform: Platform, env: DirEnv)
    ensures
        data_dir_components(platform, env).last() == "typst"@,
        cache_dir_components(platform, env).last() == "typst"@,
{
}

/// The cache directory is found from `XDG_CACHE_HOME`, `HOME` and
/// `LOCALAPPDATA` alone: two environments that differ only in `XDG_DATA_HOME`
/// give the same cache directory on every platform. Likewise the data
/// directory does not depend on `XDG_CACHE_HOME`.
pub proof fn lemma_dirs_read_their_own_variables(platform: Platform, a: DirEnv, b: DirEnv)
    requires
        a.local_app_data == b.local_app_data,
        a.home == b.home,
    ensures
        a.xdg_cache_home == b.xdg_cache_home ==> cache_dir_components(platform, a)
            == cache_dir_components(platform, b),
        a.xdg_data_home == b.xdg_data_home ==> data_dir_components(platform, a)
            == data_dir_components(platform, b),
{
}

/// On Unix without `XDG_CACHE_HOME`, the cache directory is `HOME/.cache/typst`
/// (with `.` for an unset `HOME`), whatever `XDG_DATA_HOME` holds.
pub proof fn lemma_unix_cache_dir_default(env: DirEnv)
    requires
        env.xdg_cache_home is None,
    ensures
        cache_dir_components(Platform::Unix, env).len() == 3,
        cache_dir_components(Platform::Unix, env)[1] == ".cache"@,
        env.home is Some ==> cache_dir_components(Platform::Unix, env)[0] == env.home->0@,
        env.home is None ==> cache_dir_components(Platform::Unix, env)[0] == seq!['.'],
{
}

} // verus!
