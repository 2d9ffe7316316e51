//! Where plugins are looked for.

use vstd::prelude::*;
use crate::strings::{chars_to_string, extend_chars_str, str_to_chars};

verus! {

/// `base` with the relative path `part` appended, putting a `/` between
/// them unless `base` is empty or already ends with one.
pub open spec fn spec_join_path(base: Seq<char>, part: Seq<char>) -> Seq<char> {
    if base.len() == 0 || base.last() == '/' {
        base + part
    } else {
        base + "/"@ + part
    }
}

/// Appends the relative path `part` to `base`.
pub fn join_path(base: &str, part: &str) -> (r: String)
    ensures
        r@ == spec_join_path(base@, part@),
{
    let mut v = str_to_chars(base);
    let n = v.len();
    if n > 0 && v[n - 1] != '/' {
        extend_chars_str(&mut v, "/");
    }
    extend_chars_str(&mut v, part);
    proof {
        assert(v@ =~= spec_join_path(base@, part@));
    }
    chars_to_string(v.as_slice())
}

/// The per-user configuration directory: `$XDG_CONFIG_HOME` if it is set,
/// else `$HOME/.config` if `HOME` is set, else none.
pub open spec fn spec_config_dir(xdg: Option<Seq<char>>, home: Option<Seq<char>>) -> Option<Seq<char>> {
    match xdg {
        Some(x) => Some(x),
        None => match home {
            Some(h) => Some(spec_join_path(h, ".config"@)),
            None => None,
        },
    }
}

pub open spec fn opt_view(o: Option<String>) -> Option<Seq<char>> {
    match o {
        Some(s) => Some(s@),
        None => None,
    }
}

/// The per-user configuration directory from the values of
/// `XDG_CONFIG_HOME` and `HOME`.
pub fn config_dir_from(xdg: Option<String>, home: Option<String>) -> (r: Option<String>)
    ensures
        opt_view(r) == spec_config_dir(opt_view(xdg), opt_view(home)),
{
    match xdg {
        Some(x) => Some(x),
        None => match home {
            Some(h) => Some(join_path(h.as_str(), ".config")),
            None => None,
        },
    }
}

/// Where to look for `*.py` plugins, in load order: `<config dir>/rote/plugins`
/// (when there is a config dir), then `plugins` relative to the current
/// directory.
pub open spec fn spec_plugin_dirs(config: Option<Seq<char>>) -> Seq<Seq<char>> {
    match config {
        Some(c) => seq![spec_join_path(spec_join_path(c, "rote"@), "plugins"@), "plugins"@],
        None => seq!["plugins"@],
    }
}

/// Where to look for `*.py` plugins, in load order, given the per-user
/// configuration directory.
pub fn plugin_dirs(config_dir: Option<String>) -> (dirs: Vec<String>)
    ensures
        dirs@.map_values(|d: String| d@) == spec_plugin_dirs(opt_view(config_dir)),
{
    let mut dirs: Vec<String> = Vec::new();
    if let Some(config) = config_dir {
        let rote = join_path(config.as_str(), "rote");
        dirs.push(join_path(rote.as_str(), "plugins"));
    }
    dirs.push(chars_to_string(str_to_chars("plugins").as_slice()));
    proof {
        assert(dirs@.map_values(|d: String| d@) =~= spec_plugin_dirs(opt_view(config_dir)));
    }
    dirs
}

/// Whether `s` ends with `.py`.
pub open spec fn ends_with_py(s: Seq<char>) -> bool {
    s.len() >= 3 && s.skip(s.len() - 3) == ".py"@
}

/// Whether a directory entry named `name` is loaded as a plugin: its
/// extension is `py`. A name that is only a dot and the extension, such as
/// `.py`, has no extension.
pub open spec fn spec_is_plugin_file(name: Seq<char>) -> bool {
    name.len() > 3 && ends_with_py(name)
}

/// `name` with every trailing `.py` removed (`str::trim_end_matches`).
pub open spec fn spec_plugin_module_name(name: Seq<char>) -> Seq<char>
    decreases name.len(),
{
    if ends_with_py(name) {
        spec_plugin_module_name(name.take(name.len() - 3))
    } else {
        name
    }
}

fn ends_with_py_at(name: &[char], n: usize) -> (r: bool)
    requires
        n <= name@.len(),
    ensures
        r == ends_with_py(name@.take(n as int)),
{
    proof {
        reveal_strlit(".py");
    }
    let r = n >= 3 && name[n - 3] == '.' && name[n - 2] == 'p' && name[n - 1] == 'y';
    proof {
        let t = name@.take(n as int);
        if n >= 3 {
            if r {
                assert(t.skip(t.len() - 3) =~= ".py"@);
            } else {
                if t.skip(t.len() - 3) == ".py"@ {
                    assert(t.skip(t.len() - 3)[0] == name@[n - 3]);
                    assert(t.skip(t.len() - 3)[1] == name@[n - 2]);
                    assert(t.skip(t.len() - 3)[2] == name@[n - 1]);
                }
            }
        }
    }
    r
}

/// Whether a directory entry with this file name is loaded as a plugin.
pub fn is_plugin_file(name: &str) -> (r: bool)
    ensures
        r == spec_is_plugin_file(name@),
{
    let v = str_to_chars(name);
    let n = v.len();
    let r = ends_with_py_at(v.as_slice(), n);
    proof {
        assert(v@.take(n as int) =~= v@);
    }
    n > 3 && r
}

/// The module name a plugin file is loaded under: its file name without
/// the trailing `.py`.
pub fn plugin_module_name(name: &str) -> (r: String)
    ensures
        r@ == spec_plugin_module_name(name@),
{
    let v = str_to_chars(name);
    let mut n = v.len();
    proof {
        assert(v@.take(n as int) =~= v@);
    }
    while ends_with_py_at(v.as_slice(), n)
        invariant
            n <= v@.len(),
            spec_plugin_module_name(v@.take(n as int)) == spec_plugin_module_name(name@),
        decreases n,
    {
        proof {
            assert(v@.take(n as int).take(n - 3) =~= v@.take(n - 3));
        }
        n = n - 3;
    }
    let out = crate::strings::take_chars(v.as_slice(), n);
    chars_to_string(out.as_slice())
}

} // verus!
