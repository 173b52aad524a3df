//! The list of legacy plugins that the server's own configuration keeps: which
//! names a package adds to it, and what the list is after an installation or
//! a removal.

use crate::build::config::PackageTarget;
use crate::names::{contains_name, is_sorted_set_of, sort_dedup, texts};
use crate::package::downloader::{file_name, file_name_of};
use crate::package::lock::{InstalledPackage, LockEntry, PackageLock};
use crate::paths::{join, join_path};
use crate::text::{
    chars_of, contains, ends_with, has, has_suffix, lowercase, string_of, to_lowercase,
};
use vstd::prelude::*;

verus! {

/// Knows the server's configuration file and what belongs in its list of
/// legacy plugins.
#[derive(Debug, Clone)]
pub struct ConfigManager {
    config_path: String,
}

/// `s` without the suffix `suffix`, as often as it ends with it.
pub open spec fn trim_end_all(s: Seq<char>, suffix: Seq<char>) -> Seq<char>
    decreases s.len(),
{
    if suffix.len() > 0 && ends_with(s, suffix) {
        trim_end_all(s.subrange(0, s.len() - suffix.len()), suffix)
    } else {
        s
    }
}

/// The name of a binary without its extensions.
pub open spec fn base_name(name: Seq<char>) -> Seq<char> {
    trim_end_all(trim_end_all(trim_end_all(name, ".dll"@), ".so"@), ".dylib"@)
}

/// The name under which the binary at `path` is listed as a legacy plugin,
/// `None` where it is not listed.
///
/// A file is listed if it has a name with the extension of a binary, in
/// whatever case, if its path holds `plugin`, and if its path holds none of
/// `amx`, `lib` and `log-core`, all in whatever case.
pub open spec fn plugin_name(path: Seq<char>) -> Option<Seq<char>> {
    let lower = lowercase(path);
    let name = file_name(path);
    let lower_name = lowercase(name);
    if name.len() > 0 && (ends_with(lower_name, ".dll"@) || ends_with(lower_name, ".so"@)
        || ends_with(lower_name, ".dylib"@)) && (contains(lower, "plugins"@) || contains(
        lower,
        "plugin"@,
    )) && !contains(lower, "amx"@) && !contains(lower, "lib"@) && !contains(lower, "log-core"@) {
        Some(base_name(name))
    } else {
        None
    }
}

/// The names under which the files are listed, in the order of the files.
pub open spec fn plugin_names(files: Seq<Seq<char>>) -> Seq<Seq<char>>
    decreases files.len(),
{
    if files.len() == 0 {
        Seq::empty()
    } else {
        match plugin_name(files.last()) {
            Some(n) => plugin_names(files.drop_last()).push(n),
            None => plugin_names(files.drop_last()),
        }
    }
}

/// The names under which the files of the packages for plugins are listed,
/// in the order of the entries.
pub open spec fn legacy_names(entries: Seq<LockEntry>) -> Seq<Seq<char>>
    decreases entries.len(),
{
    if entries.len() == 0 {
        Seq::empty()
    } else if entries.last().package.target == Some(PackageTarget::Plugins) {
        legacy_names(entries.drop_last()) + plugin_names(texts(entries.last().package.files@))
    } else {
        legacy_names(entries.drop_last())
    }
}

/// The texts of `list` that are not among `gone`, in their order.
pub open spec fn without_names(list: Seq<Seq<char>>, gone: Seq<Seq<char>>) -> Seq<Seq<char>>
    decreases list.len(),
{
    if list.len() == 0 {
        Seq::empty()
    } else if gone.contains(list.last()) {
        without_names(list.drop_last(), gone)
    } else {
        without_names(list.drop_last(), gone).push(list.last())
    }
}

fn trim_end(s: Vec<char>, suffix: &str) -> (r: Vec<char>)
    ensures
        r@ == trim_end_all(s@, suffix@),
{
    let p = chars_of(suffix);
    let mut out = s;
    if p.len() == 0 {
        return out;
    }
    while has_suffix(out.as_slice(), p.as_slice())
        invariant
            p@ == suffix@,
            p@.len() > 0,
            trim_end_all(s@, suffix@) == trim_end_all(out@, suffix@),
        decreases out@.len(),
    {
        let n = out.len() - p.len();
        out.truncate(n);
    }
    out
}

impl ConfigManager {
    /// The path of the configuration file.
    pub closed spec fn path(&self) -> Seq<char> {
        self.config_path@
    }

    /// For the workspace with the given root; the file is `config.json` in
    /// the root.
    pub fn new(workspace_root: &str) -> (r: ConfigManager)
        ensures
            r.path() == join_path(workspace_root@, "config.json"@),
    {
        ConfigManager { config_path: join(workspace_root, "config.json") }
    }

    /// The path of the configuration file.
    pub fn config_path(&self) -> (r: &str)
        ensures
            r@ == self.path(),
    {
        self.config_path.as_str()
    }

    /// The name under which the binary at `file_path` is listed as a legacy
    /// plugin, `None` where it is not listed.
    pub fn extract_binary_name_from_path(&self, file_path: &str) -> (r: Option<String>)
        ensures
            match r {
                Some(n) => plugin_name(file_path@) == Some(n@),
                None => plugin_name(file_path@) is None,
            },
    {
        let path = chars_of(file_path);
        let lower = to_lowercase(path.as_slice());
        let name = file_name_of(path.as_slice());
        if name.len() == 0 {
            return None;
        }
        let lower_name = to_lowercase(name.as_slice());
        let dll = chars_of(".dll");
        let so = chars_of(".so");
        let dylib = chars_of(".dylib");
        let is_binary = has_suffix(lower_name.as_slice(), dll.as_slice()) || has_suffix(
            lower_name.as_slice(),
            so.as_slice(),
        ) || has_suffix(lower_name.as_slice(), dylib.as_slice());
        if !is_binary {
            return None;
        }
        let plugins = chars_of("plugins");
        let plugin = chars_of("plugin");
        let amx = chars_of("amx");
        let lib = chars_of("lib");
        let log_core = chars_of("log-core");
        let is_plugin = has(lower.as_slice(), plugins.as_slice()) || has(
            lower.as_slice(),
            plugin.as_slice(),
        );
        let is_special = has(lower.as_slice(), amx.as_slice()) || has(
            lower.as_slice(),
            lib.as_slice(),
        ) || has(lower.as_slice(), log_core.as_slice());
        if is_plugin && !is_special {
            let base = trim_end(trim_end(trim_end(name, ".dll"), ".so"), ".dylib");
            Some(string_of(base.as_slice()))
        } else {
            None
        }
    }

    /// The names under which the files are listed, in the order of the
    /// files.
    pub fn plugin_names_of(&self, files: &Vec<String>) -> (r: Vec<String>)
        ensures
            texts(r@) == plugin_names(texts(files@)),
    {
        let ghost all = texts(files@);
        let mut out: Vec<String> = Vec::new();
        let mut i: usize = 0;
        assert(texts(out@) =~= plugin_names(all.take(0)));
        while i < files.len()
            invariant
                i <= files.len(),
                all == texts(files@),
                texts(out@) == plugin_names(all.take(i as int)),
            decreases files.len() - i,
        {
            proof {
                assert(all.take(i + 1).drop_last() =~= all.take(i as int));
                assert(all.take(i + 1).last() == files@[i as int]@);
            }
            match self.extract_binary_name_from_path(files[i].as_str()) {
                Some(n) => {
                    let ghost before = texts(out@);
                    let ghost nv = n@;
                    out.push(n);
                    assert(texts(out@) =~= before.push(nv));
                },
                None => {},
            }
            i += 1;
        }
        assert(all.take(files.len() as int) =~= all);
        out
    }

    /// The legacy plugins of all installed packages for plugins: sorted, each
    /// once.
    pub fn extract_legacy_plugin_names(&self, lock: &PackageLock) -> (r: Vec<String>)
        ensures
            is_sorted_set_of(texts(r@), legacy_names(lock.installed@)),
    {
        let ghost entries = lock.installed@;
        let mut all: Vec<String> = Vec::new();
        let mut i: usize = 0;
        assert(texts(all@) =~= legacy_names(entries.take(0)));
        while i < lock.installed.len()
            invariant
                i <= lock.installed.len(),
                entries == lock.installed@,
                texts(all@) == legacy_names(entries.take(i as int)),
            decreases lock.installed.len() - i,
        {
            proof {
                assert(entries.take(i + 1).drop_last() =~= entries.take(i as int));
                assert(entries.take(i + 1).last() == entries[i as int]);
            }
            let package = &lock.installed[i].package;
            let is_plugin_package = match package.target {
                Some(PackageTarget::Plugins) => true,
                _ => false,
            };
            if is_plugin_package {
                let mut names = self.plugin_names_of(&package.files);
                let ghost before = texts(all@);
                let ghost added = texts(names@);
                all.append(&mut names);
                assert(texts(all@) =~= before + added);
            }
            i += 1;
        }
        assert(entries.take(lock.installed.len() as int) =~= entries);
        sort_dedup(&all)
    }

    /// The list of legacy plugins after an installation: what was listed and
    /// what is new, sorted, each once.
    pub fn merge_plugin_arrays(&self, existing: &Vec<String>, new_plugins: &Vec<String>) -> (r:
        Vec<String>)
        ensures
            is_sorted_set_of(texts(r@), texts(existing@) + texts(new_plugins@)),
    {
        let mut all: Vec<String> = Vec::new();
        let mut i: usize = 0;
        while i < existing.len()
            invariant
                i <= existing.len(),
                texts(all@) == texts(existing@).take(i as int),
            decreases existing.len() - i,
        {
            let ghost before = texts(all@);
            all.push(existing[i].clone());
            assert(texts(all@) =~= before.push(existing@[i as int]@));
            assert(before.push(existing@[i as int]@) =~= texts(existing@).take(i + 1));
            i += 1;
        }
        let mut j: usize = 0;
        while j < new_plugins.len()
            invariant
                j <= new_plugins.len(),
                texts(all@) == texts(existing@).take(existing@.len() as int) + texts(
                    new_plugins@,
                ).take(j as int),
            decreases new_plugins.len() - j,
        {
            let ghost before = texts(all@);
            all.push(new_plugins[j].clone());
            assert(texts(all@) =~= before.push(new_plugins@[j as int]@));
            assert(texts(new_plugins@).take(j + 1) =~= texts(new_plugins@).take(j as int).push(
                new_plugins@[j as int]@,
            ));
            assert(before.push(new_plugins@[j as int]@) =~= texts(existing@).take(
                existing@.len() as int,
            ) + texts(new_plugins@).take(j + 1));
            j += 1;
        }
        assert(texts(all@) =~= texts(existing@) + texts(new_plugins@));
        sort_dedup(&all)
    }

    /// The list of legacy plugins without the names in `plugins_to_remove`,
    /// in its order.
    pub fn remove_plugins_from_array(
        &self,
        existing: &Vec<String>,
        plugins_to_remove: &Vec<String>,
    ) -> (r: Vec<String>)
        ensures
            texts(r@) == without_names(texts(existing@), texts(plugins_to_remove@)),
    {
        let ghost list = texts(existing@);
        let ghost gone = texts(plugins_to_remove@);
        let mut out: Vec<String> = Vec::new();
        let mut i: usize = 0;
        assert(texts(out@) =~= without_names(list.take(0), gone));
        while i < existing.len()
            invariant
                i <= existing.len(),
                list == texts(existing@),
                gone == texts(plugins_to_remove@),
                texts(out@) == without_names(list.take(i as int), gone),
            decreases existing.len() - i,
        {
            proof {
                assert(list.take(i + 1).drop_last() =~= list.take(i as int));
                assert(list.take(i + 1).last() == existing@[i as int]@);
            }
            if !contains_name(plugins_to_remove, existing[i].as_str()) {
                let ghost before = texts(out@);
                out.push(existing[i].clone());
                assert(texts(out@) =~= before.push(existing@[i as int]@));
            }
            i += 1;
        }
        assert(list.take(existing.len() as int) =~= list);
        out
    }

    /// The list of legacy plugins to write after an installation, from the
    /// list that the configuration holds, if it holds one, and the legacy
    /// plugins of the installed packages.
    pub fn update_legacy_plugins(&self, existing: Option<&Vec<String>>, lock: &PackageLock) -> (r:
        Option<Vec<String>>)
        ensures
            legacy_names(lock.installed@).len() == 0 ==> r is None,
            legacy_names(lock.installed@).len() > 0 ==> (r matches Some(list) && is_sorted_set_of(
                texts(list@),
                match existing {
                    Some(e) => texts(e@) + legacy_names(lock.installed@),
                    None => legacy_names(lock.installed@),
                },
            )),
    {
        let legacy = self.extract_legacy_plugin_names(lock);
        let ghost names = legacy_names(lock.installed@);
        proof {
            if names.len() > 0 {
                assert(names.contains(names[0]));
                assert(texts(legacy@).contains(names[0]));
            } else if legacy@.len() > 0 {
                assert(texts(legacy@).contains(texts(legacy@)[0]));
            }
        }
        if legacy.len() == 0 {
            return None;
        }
        match existing {
            Some(e) => {
                let merged = self.merge_plugin_arrays(e, &legacy);
                proof {
                    let want = texts(e@) + names;
                    let have = texts(e@) + texts(legacy@);
                    assert forall|x: Seq<char>| have.contains(x) <==> want.contains(x) by {
                        if have.contains(x) {
                            let k = choose|k: int| 0 <= k < have.len() && have[k] == x;
                            if k < e@.len() {
                                assert(want[k] == x);
                            } else {
                                assert(texts(legacy@)[k - e@.len()] == x);
                                assert(texts(legacy@).contains(x));
                                let m = choose|m: int| 0 <= m < names.len() && names[m] == x;
                                assert(want[e@.len() + m] == x);
                            }
                        }
                        if want.contains(x) {
                            let k = choose|k: int| 0 <= k < want.len() && want[k] == x;
                            if k < e@.len() {
                                assert(have[k] == x);
                            } else {
                                assert(names[k - e@.len()] == x);
                                assert(names.contains(x));
                                let m = choose|m: int|
                                    0 <= m < legacy@.len() && texts(legacy@)[m] == x;
                                assert(have[e@.len() + m] == x);
                            }
                        }
                    }
                }
                Some(merged)
            },
            None => Some(legacy),
        }
    }

    /// The list of legacy plugins to write after the removal of `package`:
    /// the list without the names that the package's files are listed under,
    /// `None` where that leaves the list as long as it was.
    pub fn remove_legacy_plugin_advanced(
        &self,
        existing: &Vec<String>,
        package: &InstalledPackage,
    ) -> (r: Option<Vec<String>>)
        ensures
            ({
                let left = without_names(texts(existing@), plugin_names(texts(package.files@)));
                match r {
                    Some(list) => texts(list@) == left && left.len() != existing@.len(),
                    None => left.len() == existing@.len(),
                }
            }),
    {
        let names = self.plugin_names_of(&package.files);
        let left = self.remove_plugins_from_array(existing, &names);
        assert(texts(left@).len() == left@.len());
        if left.len() != existing.len() {
            Some(left)
        } else {
            None
        }
    }
}

} // verus!
