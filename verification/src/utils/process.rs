//! Finding the server's executable.

use crate::paths::{join, join_path};
use crate::result::{join2, OpenCliError};
use crate::text::{chars_of, has_prefix, starts_with, string_of};
use vstd::prelude::*;

verus! {

/// Knows where the server's executable may be.
#[derive(Debug, Clone, Copy, Default)]
pub struct ProcessManager {}

/// What is known of one name under which the server's executable is looked
/// for.
#[derive(Debug, Clone)]
pub struct Probe {
    /// Whether the current folder has a file of that name.
    pub in_dir: bool,
    /// Whether the name, as it stands, is the path of a file.
    pub as_given: bool,
    /// Where the search path has an executable of that name.
    pub on_path: Option<String>,
}

/// The names under which the server's executable is looked for, in the order
/// in which they are tried.
pub open spec fn server_names(windows: bool) -> Seq<Seq<char>> {
    if windows {
        seq!["omp-server.exe"@, "./omp-server.exe"@, ".\\omp-server.exe"@, "omp-server"@]
    } else {
        seq!["omp-server"@, "./omp-server"@, "omp-server.exe"@]
    }
}

/// The names as the message of a failed search lists them.
pub open spec fn names_shown(windows: bool) -> Seq<char> {
    if windows {
        "[\"omp-server.exe\", \"./omp-server.exe\", \".\\\\omp-server.exe\", \"omp-server\"]"@
    } else {
        "[\"omp-server\", \"./omp-server\", \"omp-server.exe\"]"@
    }
}

/// Where the first of the first `n` names that is found in the folder `dir`,
/// or as it stands, is: in the folder where it is there, as it stands
/// otherwise. A name without a probe counts as not found.
pub open spec fn found_near(dir: Seq<char>, names: Seq<Seq<char>>, probes: Seq<Probe>, n: int) -> Option<
    Seq<char>,
>
    decreases n,
{
    if n <= 0 || n > names.len() {
        None
    } else {
        match found_near(dir, names, probes, n - 1) {
            Some(p) => Some(p),
            None => if n > probes.len() {
                None
            } else if probes[n - 1].in_dir {
                Some(join_path(dir, without_dot(names[n - 1])))
            } else if probes[n - 1].as_given {
                Some(names[n - 1])
            } else {
                None
            },
        }
    }
}

/// Where the search path has the first of the first `n` names that it has.
pub open spec fn found_on_path(probes: Seq<Probe>, n: int) -> Option<Seq<char>>
    decreases n,
{
    if n <= 0 || n > probes.len() {
        None
    } else {
        match found_on_path(probes, n - 1) {
            Some(p) => Some(p),
            None => match probes[n - 1].on_path {
                Some(p) => Some(p@),
                None => None,
            },
        }
    }
}

/// How many of the names have a probe.
pub open spec fn probed(names: Seq<Seq<char>>, probes: Seq<Probe>) -> int {
    if probes.len() < names.len() {
        probes.len() as int
    } else {
        names.len() as int
    }
}

/// The executable to start, or the message that says why there is none.
/// A path that was asked for is taken if it exists. Otherwise the names are
/// tried in the current folder and as they stand, and only if none is found
/// there, on the search path.
pub open spec fn server_executable(
    server_path: Option<Seq<char>>,
    custom_exists: bool,
    dir: Seq<char>,
    windows: bool,
    probes: Seq<Probe>,
) -> Result<Seq<char>, Seq<char>> {
    let names = server_names(windows);
    match server_path {
        Some(p) => if custom_exists {
            Ok(p)
        } else {
            Err("Custom server path not found: "@ + p)
        },
        None => match found_near(dir, names, probes, probed(names, probes)) {
            Some(p) => Ok(p),
            None => match found_on_path(probes, probed(names, probes)) {
                Some(p) => Ok(p),
                None => Err(
                    "omp-server executable not found.\nLooked for: "@ + names_shown(windows)
                        + "\nCurrent directory: "@ + dir,
                ),
            },
        },
    }
}

/// `name` without the `./` or the `.\` that may stand before it.
pub open spec fn without_dot(name: Seq<char>) -> Seq<char> {
    if starts_with(name, "./"@) || starts_with(name, ".\\"@) {
        name.subrange(2, name.len() as int)
    } else {
        name
    }
}

impl ProcessManager {
    /// The manager; it holds no state.
    pub fn new() -> (r: ProcessManager) {
        ProcessManager {  }
    }

    /// The names under which the server's executable is looked for, in the
    /// order in which they are tried.
    pub fn server_binaries(&self, windows: bool) -> (r: Vec<&'static str>)
        ensures
            r@.len() == server_names(windows).len(),
            forall|i: int| 0 <= i < r@.len() ==> (#[trigger] r@[i])@ == server_names(windows)[i],
    {
        let mut out: Vec<&'static str> = Vec::new();
        if windows {
            out.push("omp-server.exe");
            out.push("./omp-server.exe");
            out.push(".\\omp-server.exe");
            out.push("omp-server");
        } else {
            out.push("omp-server");
            out.push("./omp-server");
            out.push("omp-server.exe");
        }
        out
    }

    /// Where the executable named `binary` would lie in the directory
    /// `current_dir`.
    pub fn candidate_path(&self, current_dir: &str, binary: &str) -> (r: String)
        ensures
            r@ == join_path(current_dir@, without_dot(binary@)),
    {
        let b = chars_of(binary);
        let slash = chars_of("./");
        let backslash = chars_of(".\\");
        if has_prefix(b.as_slice(), slash.as_slice()) || has_prefix(
            b.as_slice(),
            backslash.as_slice(),
        ) {
            proof {
                reveal_strlit("./");
                reveal_strlit(".\\");
            }
            let rest = string_of(&b.as_slice()[2..b.len()]);
            join(current_dir, rest.as_str())
        } else {
            join(current_dir, binary)
        }
    }

    /// The path of the executable `name` as the search path has it.
    ///
    /// Fails with a `NotFound` error where the search path has none.
    pub fn find_executable(&self, name: &str, found: Option<String>) -> (r: Result<
        String,
        OpenCliError,
    >)
        ensures
            match found {
                Some(p) => r matches Ok(q) && q@ == p@,
                None => r matches Err(e) && e is NotFound && e.message()
                    == "Executable not found: "@ + name@,
            },
    {
        match found {
            Some(p) => Ok(p),
            None => Err(OpenCliError::NotFound(join2("Executable not found: ", name))),
        }
    }

    /// The executable of the server to start: `server_path` where one is
    /// given, else the first of the names that is found.
    ///
    /// Fails with a `NotFound` error where the given path does not exist, or
    /// where none of the names is found anywhere.
    pub fn exec_server(
        &self,
        server_path: Option<String>,
        custom_exists: bool,
        current_dir: &str,
        windows: bool,
        probes: &Vec<Probe>,
    ) -> (r: Result<String, OpenCliError>)
        ensures
            match server_executable(
                match server_path {
                    Some(p) => Some(p@),
                    None => None,
                },
                custom_exists,
                current_dir@,
                windows,
                probes@,
            ) {
                Ok(p) => r matches Ok(q) && q@ == p,
                Err(m) => r matches Err(e) && e is NotFound && e.message() == m,
            },
    {
        if let Some(custom) = server_path {
            if custom_exists {
                return Ok(custom);
            }
            return Err(
                OpenCliError::NotFound(join2("Custom server path not found: ", custom.as_str())),
            );
        }
        let names = self.server_binaries(windows);
        let ghost all = server_names(windows);
        let count = if probes.len() < names.len() {
            probes.len()
        } else {
            names.len()
        };
        let mut i: usize = 0;
        while i < count
            invariant
                i <= count,
                server_path is None,
                count == probed(all, probes@),
                all == server_names(windows),
                names@.len() == all.len(),
                forall|k: int| 0 <= k < names@.len() ==> (#[trigger] names@[k])@ == all[k],
                found_near(current_dir@, all, probes@, i as int) is None,
            decreases count - i,
        {
            if probes[i].in_dir {
                let r = self.candidate_path(current_dir, names[i]);
                proof {
                    lemma_found_near_stays(current_dir@, all, probes@, i + 1, count as int);
                }
                return Ok(r);
            }
            if probes[i].as_given {
                proof {
                    lemma_found_near_stays(current_dir@, all, probes@, i + 1, count as int);
                }
                return Ok(names[i].to_owned());
            }
            i += 1;
        }
        let mut j: usize = 0;
        while j < count
            invariant
                j <= count,
                server_path is None,
                count == probed(all, probes@),
                all == server_names(windows),
                found_near(current_dir@, all, probes@, count as int) is None,
                found_on_path(probes@, j as int) is None,
            decreases count - j,
        {
            if let Some(p) = &probes[j].on_path {
                proof {
                    lemma_found_on_path_stays(probes@, j + 1, count as int);
                }
                return Ok(p.clone());
            }
            j += 1;
        }
        let shown = if windows {
            "[\"omp-server.exe\", \"./omp-server.exe\", \".\\\\omp-server.exe\", \"omp-server\"]"
        } else {
            "[\"omp-server\", \"./omp-server\", \"omp-server.exe\"]"
        };
        let head = join2("omp-server executable not found.\nLooked for: ", shown);
        let middle = join2(head.as_str(), "\nCurrent directory: ");
        Err(OpenCliError::NotFound(join2(middle.as_str(), current_dir)))
    }
}

/// What was found among the first names is what is found among more of them.
proof fn lemma_found_near_stays(dir: Seq<char>, names: Seq<Seq<char>>, probes: Seq<Probe>, k: int, n: int)
    requires
        0 <= k <= n <= names.len(),
        found_near(dir, names, probes, k) is Some,
    ensures
        found_near(dir, names, probes, n) == found_near(dir, names, probes, k),
    decreases n - k,
{
    if k < n {
        lemma_found_near_stays(dir, names, probes, k, n - 1);
    }
}

/// What the search path had for the first names is what it has for more of
/// them.
proof fn lemma_found_on_path_stays(probes: Seq<Probe>, k: int, n: int)
    requires
        0 <= k <= n <= probes.len(),
        found_on_path(probes, k) is Some,
    ensures
        found_on_path(probes, n) == found_on_path(probes, k),
    decreases n - k,
{
    if k < n {
        lemma_found_on_path_stays(probes, k, n - 1);
    }
}

} // verus!
