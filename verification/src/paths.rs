//! Paths as text, joined the way `PathBuf::push` joins a relative part on
//! each platform, and the directory lists built from them: where Node may
//! be installed, and where a bundled backend may live.

use vstd::prelude::*;
use crate::backend::{newest_first, version_gt, version_of, without_verbatim_prefix, strip_verbatim_prefix};
use crate::order::is_permutation;
use crate::text::{chars_of, is_ascii_alphabetic, opt_view, views};

verus! {

/// The platform the shell was built for, as far as paths are concerned.
#[derive(Clone, Copy, PartialEq, Eq, Debug, Structural)]
pub enum Platform {
    MacOs,
    /// A unix other than macOS, such as Linux.
    Unix,
    Windows,
    /// Anything else: no platform directories are searched.
    Other,
}

/// The separator a platform writes between path components.
pub open spec fn separator(platform: Platform) -> char {
    if platform == Platform::Windows {
        '\\'
    } else {
        '/'
    }
}

/// Whether `c` separates path components on `platform`.
pub open spec fn is_separator(platform: Platform, c: char) -> bool {
    c == '/' || (platform == Platform::Windows && c == '\\')
}

/// `base` with the relative `part` pushed onto it: no separator is added
/// after an empty base, after a base that ends in a separator, or after a
/// bare Windows drive such as `C:`.
pub open spec fn joined_path(platform: Platform, base: Seq<char>, part: Seq<char>) -> Seq<char> {
    let bare_drive = platform == Platform::Windows && base.len() == 2 && is_ascii_alphabetic(
        base[0],
    ) && base[1] == ':';
    if base.len() == 0 || is_separator(platform, base.last()) || bare_drive {
        base + part
    } else {
        base + seq![separator(platform)] + part
    }
}

/// Push the relative `part` onto `base`.
pub fn join_path(platform: Platform, base: &str, part: &str) -> (r: String)
    ensures
        r@ == joined_path(platform, base@, part@),
{
    let cs = chars_of(base);
    let n = cs.len();
    let windows = match platform {
        Platform::Windows => true,
        _ => false,
    };
    let bare_drive = windows && n == 2 && (('a' <= cs[0] && cs[0] <= 'z') || ('A' <= cs[0] && cs[0]
        <= 'Z')) && cs[1] == ':';
    let ends_in_separator = n > 0 && (cs[n - 1] == '/' || (windows && cs[n - 1] == '\\'));
    let mut r = String::from_str(base);
    if !(n == 0 || ends_in_separator || bare_drive) {
        if windows {
            r.push('\\');
        } else {
            r.push('/');
        }
    }
    r.append(part);
    r
}

pub open spec fn opt_list(v: Option<Seq<char>>) -> Seq<Seq<char>> {
    match v {
        Some(x) => seq![x],
        None => Seq::empty(),
    }
}

// ---------------------------------------------------------------------------
// Where Node may be installed

/// The well-known install directories of a platform, as the configuration
/// guide lists them: Homebrew, `/usr/local/bin` and MacPorts on macOS;
/// `/usr/local/bin`, `/usr/bin` and snap on other unixes; on Windows the
/// Node installer's, the per-user installer's and Volta's directories under
/// `%ProgramFiles%` and `%LOCALAPPDATA%`, and npm's under `%APPDATA%`.
pub open spec fn platform_bin_dirs(
    platform: Platform,
    program_files: Option<Seq<char>>,
    local_app_data: Option<Seq<char>>,
    app_data: Option<Seq<char>>,
) -> Seq<Seq<char>> {
    match platform {
        Platform::MacOs => seq!["/opt/homebrew/bin"@, "/usr/local/bin"@, "/opt/local/bin"@],
        Platform::Unix => seq!["/usr/local/bin"@, "/usr/bin"@, "/snap/bin"@],
        Platform::Windows => {
            let pf = match program_files {
                Some(p) => seq![joined_path(platform, p, "nodejs"@)],
                None => Seq::empty(),
            };
            let local = match local_app_data {
                Some(l) => seq![
                    joined_path(platform, joined_path(platform, l, "Programs"@), "nodejs"@),
                    joined_path(platform, joined_path(platform, l, "Volta"@), "bin"@),
                ],
                None => Seq::empty(),
            };
            let roaming = match app_data {
                Some(a) => seq![joined_path(platform, a, "npm"@)],
                None => Seq::empty(),
            };
            pf + local + roaming
        },
        Platform::Other => Seq::empty(),
    }
}

/// The directories under the home directory on every platform: Volta's,
/// asdf's shims and `~/.local/bin`, then the version managers' directories.
pub open spec fn home_bin_dirs(platform: Platform, home: Seq<char>, version_dirs: Seq<Seq<char>>) -> Seq<
    Seq<char>,
> {
    seq![
        joined_path(platform, joined_path(platform, home, ".volta"@), "bin"@),
        joined_path(platform, joined_path(platform, home, ".asdf"@), "shims"@),
        joined_path(platform, joined_path(platform, home, ".local"@), "bin"@),
    ] + version_dirs
}

/// Every directory searched for a tool that is not on `PATH`, in order.
pub open spec fn documented_bin_dirs(
    platform: Platform,
    program_files: Option<Seq<char>>,
    local_app_data: Option<Seq<char>>,
    app_data: Option<Seq<char>>,
    home: Option<Seq<char>>,
    version_dirs: Seq<Seq<char>>,
) -> Seq<Seq<char>> {
    platform_bin_dirs(platform, program_files, local_app_data, app_data) + match home {
        Some(h) => home_bin_dirs(platform, h, version_dirs),
        None => Seq::empty(),
    }
}

fn join_twice(platform: Platform, base: &str, a: &str, b: &str) -> (r: String)
    ensures
        r@ == joined_path(platform, joined_path(platform, base@, a@), b@),
{
    let t = join_path(platform, base, a);
    join_path(platform, t.as_str(), b)
}

/// The directories to search for a tool that is not on `PATH`: the
/// platform's well-known install directories (from `%ProgramFiles%`,
/// `%LOCALAPPDATA%` and `%APPDATA%` on Windows), then those under the home
/// directory, ending with the version managers' `version_dirs`.
pub fn extra_bin_dirs(
    platform: Platform,
    program_files: Option<String>,
    local_app_data: Option<String>,
    app_data: Option<String>,
    home: Option<String>,
    version_dirs: Vec<String>,
) -> (r: Vec<String>)
    ensures
        views(r@) == documented_bin_dirs(
            platform,
            opt_view(program_files),
            opt_view(local_app_data),
            opt_view(app_data),
            opt_view(home),
            views(version_dirs@),
        ),
{
    let mut r: Vec<String> = Vec::new();
    match platform {
        Platform::MacOs => {
            r.push(String::from_str("/opt/homebrew/bin"));
            r.push(String::from_str("/usr/local/bin"));
            r.push(String::from_str("/opt/local/bin"));
        },
        Platform::Unix => {
            r.push(String::from_str("/usr/local/bin"));
            r.push(String::from_str("/usr/bin"));
            r.push(String::from_str("/snap/bin"));
        },
        Platform::Windows => {
            if let Some(p) = &program_files {
                r.push(join_path(platform, p.as_str(), "nodejs"));
            }
            if let Some(l) = &local_app_data {
                r.push(join_twice(platform, l.as_str(), "Programs", "nodejs"));
                r.push(join_twice(platform, l.as_str(), "Volta", "bin"));
            }
            if let Some(a) = &app_data {
                r.push(join_path(platform, a.as_str(), "npm"));
            }
        },
        Platform::Other => {},
    }
    let ghost before_home = views(r@);
    assert(before_home =~= platform_bin_dirs(
        platform,
        opt_view(program_files),
        opt_view(local_app_data),
        opt_view(app_data),
    ));
    if let Some(h) = &home {
        r.push(join_twice(platform, h.as_str(), ".volta", "bin"));
        r.push(join_twice(platform, h.as_str(), ".asdf", "shims"));
        r.push(join_twice(platform, h.as_str(), ".local", "bin"));
        let ghost before_versions = views(r@);
        assert(before_versions =~= before_home + seq![
            joined_path(platform, joined_path(platform, h@, ".volta"@), "bin"@),
            joined_path(platform, joined_path(platform, h@, ".asdf"@), "shims"@),
            joined_path(platform, joined_path(platform, h@, ".local"@), "bin"@),
        ]);
        let mut i: usize = 0;
        while i < version_dirs.len()
            invariant
                i <= version_dirs@.len(),
                views(r@) == before_versions + views(version_dirs@).take(i as int),
            decreases version_dirs@.len() - i,
        {
            let d = version_dirs[i].clone();
            let ghost old_r = r@;
            r.push(d);
            proof {
                assert(views(r@) =~= views(old_r).push(version_dirs@[i as int]@));
                assert(views(version_dirs@)[i as int] == version_dirs@[i as int]@);
                assert(views(version_dirs@).take(i + 1) =~= views(version_dirs@).take(i as int).push(
                    version_dirs@[i as int]@,
                ));
                assert(views(r@) =~= before_versions + views(version_dirs@).take(i + 1));
            }
            i = i + 1;
        }
        assert(views(version_dirs@).take(version_dirs@.len() as int) =~= views(version_dirs@));
    } else {
        assert(views(r@) =~= before_home + Seq::<Seq<char>>::empty());
    }
    r
}

/// On every platform, a known home directory adds Volta's, asdf's and
/// `~/.local`'s `bin` directories and then the version managers'
/// directories, after the platform's own list, which does not depend on the
/// home directory or the version directories.
pub proof fn lemma_home_dirs_on_every_platform(
    platform: Platform,
    program_files: Option<Seq<char>>,
    local_app_data: Option<Seq<char>>,
    app_data: Option<Seq<char>>,
    home: Seq<char>,
    version_dirs: Seq<Seq<char>>,
)
    ensures
        documented_bin_dirs(platform, program_files, local_app_data, app_data, Some(home), version_dirs)
            == documented_bin_dirs(platform, program_files, local_app_data, app_data, None, Seq::empty())
            + seq![
            joined_path(platform, joined_path(platform, home, ".volta"@), "bin"@),
            joined_path(platform, joined_path(platform, home, ".asdf"@), "shims"@),
            joined_path(platform, joined_path(platform, home, ".local"@), "bin"@),
        ] + version_dirs,
        documented_bin_dirs(platform, program_files, local_app_data, app_data, None, version_dirs)
            == documented_bin_dirs(platform, program_files, local_app_data, app_data, None, Seq::empty()),
{
    let base = platform_bin_dirs(platform, program_files, local_app_data, app_data);
    assert(base + Seq::<Seq<char>>::empty() =~= base);
    assert(documented_bin_dirs(platform, program_files, local_app_data, app_data, Some(home), version_dirs)
        =~= base + seq![
        joined_path(platform, joined_path(platform, home, ".volta"@), "bin"@),
        joined_path(platform, joined_path(platform, home, ".asdf"@), "shims"@),
        joined_path(platform, joined_path(platform, home, ".local"@), "bin"@),
    ] + version_dirs);
}

// ---------------------------------------------------------------------------
// Node installs managed by version managers

/// The directories nvm and fnm keep their Node versions in, under `home`:
/// `~/.nvm/versions/node`, `~/.local/share/fnm/node-versions` and
/// `~/Library/Application Support/fnm/node-versions`.
pub open spec fn version_manager_roots_of(platform: Platform, home: Seq<char>) -> Seq<Seq<char>> {
    seq![
        joined_path(
            platform,
            joined_path(platform, joined_path(platform, home, ".nvm"@), "versions"@),
            "node"@,
        ),
        joined_path(
            platform,
            joined_path(
                platform,
                joined_path(platform, joined_path(platform, home, ".local"@), "share"@),
                "fnm"@,
            ),
            "node-versions"@,
        ),
        joined_path(
            platform,
            joined_path(
                platform,
                joined_path(platform, joined_path(platform, home, "Library"@), "Application Support"@),
                "fnm"@,
            ),
            "node-versions"@,
        ),
    ]
}

/// The directories nvm and fnm keep their Node versions in, under `home`.
pub fn version_manager_roots(platform: Platform, home: &str) -> (r: Vec<String>)
    ensures
        views(r@) == version_manager_roots_of(platform, home@),
{
    let a = join_path(platform, home, ".nvm");
    let a = join_path(platform, a.as_str(), "versions");
    let a = join_path(platform, a.as_str(), "node");
    let b = join_path(platform, home, ".local");
    let b = join_path(platform, b.as_str(), "share");
    let b = join_path(platform, b.as_str(), "fnm");
    let b = join_path(platform, b.as_str(), "node-versions");
    let c = join_path(platform, home, "Library");
    let c = join_path(platform, c.as_str(), "Application Support");
    let c = join_path(platform, c.as_str(), "fnm");
    let c = join_path(platform, c.as_str(), "node-versions");
    let mut r: Vec<String> = Vec::new();
    r.push(a);
    r.push(b);
    r.push(c);
    assert(views(r@) =~= version_manager_roots_of(platform, home@));
    r
}

/// `p` lists the positions of `names` newest version first, equal versions
/// in their listed order.
pub open spec fn newest_first_order(names: Seq<Seq<char>>, p: Seq<usize>) -> bool {
    &&& is_permutation(p, names.len())
    &&& forall|i: int, j: int|
        0 <= i < j < p.len() ==> version_gt(version_of(names[p[i] as int]), version_of(names[p[j] as int]))
            || (version_of(names[p[i] as int]) == version_of(names[p[j] as int]) && p[i] < p[j])
}

/// The `bin` directories of version directories `dirs` taken in the order
/// `p`: each one's `bin` (nvm's layout), then its `installation/bin` (fnm's).
pub open spec fn bin_dirs_in_order(platform: Platform, dirs: Seq<Seq<char>>, p: Seq<usize>) -> Seq<
    Seq<char>,
>
    decreases p.len(),
{
    if p.len() == 0 {
        Seq::empty()
    } else {
        let d = dirs[p.last() as int];
        bin_dirs_in_order(platform, dirs, p.drop_last()) + seq![
            joined_path(platform, d, "bin"@),
            joined_path(platform, joined_path(platform, d, "installation"@), "bin"@),
        ]
    }
}

pub open spec fn entry_names(found: Seq<(String, String)>) -> Seq<Seq<char>> {
    found.map_values(|e: (String, String)| e.0@)
}

pub open spec fn entry_dirs(found: Seq<(String, String)>) -> Seq<Seq<char>> {
    found.map_values(|e: (String, String)| e.1@)
}

/// The `bin` directories of the Node versions found, given as pairs of a
/// version directory's name (such as `v20.11.0`) and its path: newest
/// version first, and for each its `bin` then its `installation/bin`.
pub fn version_bin_dirs(platform: Platform, found: &Vec<(String, String)>) -> (r: Vec<String>)
    ensures
        exists|p: Seq<usize>|
            newest_first_order(entry_names(found@), p) && views(r@) == bin_dirs_in_order(
                platform,
                entry_dirs(found@),
                p,
            ),
{
    let mut names: Vec<String> = Vec::new();
    let mut i: usize = 0;
    while i < found.len()
        invariant
            i <= found@.len(),
            views(names@) == entry_names(found@).take(i as int),
        decreases found@.len() - i,
    {
        let ghost old_names = names@;
        names.push(found[i].0.clone());
        proof {
            assert(views(names@) =~= views(old_names).push(found@[i as int].0@));
            assert(entry_names(found@).take(i + 1) =~= entry_names(found@).take(i as int).push(
                found@[i as int].0@,
            ));
        }
        i = i + 1;
    }
    assert(entry_names(found@).take(found@.len() as int) =~= entry_names(found@));
    let p = newest_first(&names);
    proof {
        assert forall|i: int| 0 <= i < names@.len() implies #[trigger] views(names@)[i] == names@[i]@ by {}
        assert(newest_first_order(entry_names(found@), p@));
    }
    let mut r: Vec<String> = Vec::new();
    let mut k: usize = 0;
    while k < p.len()
        invariant
            k <= p@.len(),
            is_permutation(p@, found@.len()),
            views(r@) == bin_dirs_in_order(platform, entry_dirs(found@), p@.take(k as int)),
        decreases p@.len() - k,
    {
        let d = &found[p[k]].1;
        let ghost old_r = r@;
        r.push(join_path(platform, d.as_str(), "bin"));
        r.push(join_twice(platform, d.as_str(), "installation", "bin"));
        proof {
            assert(p@.take(k + 1).drop_last() =~= p@.take(k as int));
            assert(entry_dirs(found@)[p@[k as int] as int] == found@[p@[k as int] as int].1@);
            assert(views(r@) =~= bin_dirs_in_order(platform, entry_dirs(found@), p@.take(k as int))
                + seq![
                joined_path(platform, d@, "bin"@),
                joined_path(platform, joined_path(platform, d@, "installation"@), "bin"@),
            ]);
        }
        k = k + 1;
    }
    assert(p@.take(p@.len() as int) =~= p@);
    r
}

// ---------------------------------------------------------------------------
// The bundled backend's entry point

/// Where a bundled backend's entry point would be under the search root
/// `root`: `backend/node_modules/@deepseek-ai/dsh/lib/bin.js`.
pub open spec fn bundled_entry_of(platform: Platform, root: Seq<char>) -> Seq<char> {
    let j = |b: Seq<char>, p: Seq<char>| joined_path(platform, b, p);
    j(j(j(j(j(j(root, "backend"@), "node_modules"@), "@deepseek-ai"@), "dsh"@), "lib"@), "bin.js"@)
}

/// Where a bundled backend's entry point would be under `root`.
pub fn bundled_entry(platform: Platform, root: &str) -> (r: String)
    ensures
        r@ == bundled_entry_of(platform, root@),
{
    let p = join_path(platform, root, "backend");
    let p = join_path(platform, p.as_str(), "node_modules");
    let p = join_path(platform, p.as_str(), "@deepseek-ai");
    let p = join_path(platform, p.as_str(), "dsh");
    let p = join_path(platform, p.as_str(), "lib");
    join_path(platform, p.as_str(), "bin.js")
}

// ---------------------------------------------------------------------------
// Where a bundled backend may live

/// The search roots, in order: the packaged resource directory, up to six
/// ancestors of the executable (nearest first), the working directory, and
/// the parent of the cargo manifest directory, each with Windows'
/// extended-length prefix removed.
pub open spec fn search_roots_of(
    platform: Platform,
    resource_dir: Option<Seq<char>>,
    exe_ancestors: Seq<Seq<char>>,
    cwd: Option<Seq<char>>,
    manifest_dir: Option<Seq<char>>,
) -> Seq<Seq<char>> {
    let ancestors = if exe_ancestors.len() <= 6 {
        exe_ancestors
    } else {
        exe_ancestors.take(6)
    };
    let manifest = match manifest_dir {
        Some(m) => seq![joined_path(platform, m, ".."@)],
        None => Seq::empty(),
    };
    (opt_list(resource_dir) + ancestors + opt_list(cwd) + manifest).map_values(
        |r: Seq<char>| without_verbatim_prefix(r),
    )
}

fn push_root(out: &mut Vec<String>, root: &str)
    ensures
        views(final(out)@) == views(old(out)@).push(without_verbatim_prefix(root@)),
{
    let ghost before = out@;
    out.push(strip_verbatim_prefix(root));
    assert(views(out@) =~= views(before).push(without_verbatim_prefix(root@)));
}

/// Where a bundled backend may live: the packaged resource directory, the
/// executable's directory and up to five of its ancestors (`exe_ancestors`
/// lists them nearest first), the working directory and the cargo manifest
/// directory's parent, each made safe to hand to Node.
pub fn search_roots_from(
    platform: Platform,
    resource_dir: Option<String>,
    exe_ancestors: &Vec<String>,
    cwd: Option<String>,
    manifest_dir: Option<String>,
) -> (r: Vec<String>)
    ensures
        views(r@) == search_roots_of(
            platform,
            opt_view(resource_dir),
            views(exe_ancestors@),
            opt_view(cwd),
            opt_view(manifest_dir),
        ),
{
    let ghost ancestors = if exe_ancestors@.len() <= 6 {
        views(exe_ancestors@)
    } else {
        views(exe_ancestors@).take(6)
    };
    let ghost all = opt_list(opt_view(resource_dir)) + ancestors + opt_list(opt_view(cwd)) + match opt_view(manifest_dir) {
        Some(m) => seq![joined_path(platform, m, ".."@)],
        None => Seq::<Seq<char>>::empty(),
    };
    let ghost strip = |x: Seq<char>| without_verbatim_prefix(x);
    let mut r: Vec<String> = Vec::new();
    if let Some(res) = &resource_dir {
        push_root(&mut r, res.as_str());
    }
    let ghost after_res = opt_list(opt_view(resource_dir));
    assert(views(r@) =~= after_res.map_values(strip));
    let limit: usize = if exe_ancestors.len() <= 6 {
        exe_ancestors.len()
    } else {
        6
    };
    let mut i: usize = 0;
    while i < limit
        invariant
            limit <= exe_ancestors@.len(),
            limit as int == ancestors.len(),
            ancestors == (if exe_ancestors@.len() <= 6 {
                views(exe_ancestors@)
            } else {
                views(exe_ancestors@).take(6)
            }),
            i <= limit,
            strip == (|x: Seq<char>| without_verbatim_prefix(x)),
            views(r@) == (after_res + ancestors.take(i as int)).map_values(strip),
        decreases limit - i,
    {
        push_root(&mut r, exe_ancestors[i].as_str());
        proof {
            assert(ancestors[i as int] == exe_ancestors@[i as int]@);
            assert((after_res + ancestors.take(i + 1)) =~= (after_res + ancestors.take(i as int)).push(
                exe_ancestors@[i as int]@,
            ));
            assert(views(r@) =~= (after_res + ancestors.take(i + 1)).map_values(strip));
        }
        i = i + 1;
    }
    assert(ancestors.take(limit as int) =~= ancestors);
    if let Some(c) = &cwd {
        push_root(&mut r, c.as_str());
    }
    let ghost after_cwd = after_res + ancestors + opt_list(opt_view(cwd));
    assert(views(r@) =~= after_cwd.map_values(strip));
    if let Some(m) = &manifest_dir {
        let up = join_path(platform, m.as_str(), "..");
        push_root(&mut r, up.as_str());
    }
    assert(views(r@) =~= all.map_values(strip));
    r
}

} // verus!
