//! Whether the compiler has to be downloaded, and how it is unpacked.

use crate::compiler::downloader::{regex_check, regex_error, regex_is_match, regex_matches};
use crate::result::{join2, OpenCliError};
use crate::text::same_str;
use vstd::prelude::*;

verus! {

/// How the compiler's archive is unpacked.
#[derive(Debug, Clone, Copy, PartialEq, Eq, Structural)]
pub enum ExtractionMethod {
    Zip,
    Tgz,
}

/// The method that a text names.
pub open spec fn method_named(method: Seq<char>) -> Option<ExtractionMethod> {
    if method == "zip"@ {
        Some(ExtractionMethod::Zip)
    } else if method == "tgz"@ {
        Some(ExtractionMethod::Tgz)
    } else {
        None
    }
}

/// The compiler that is there can be used: it exists, a new download is not
/// forced, and its hash is cached and verified.
pub open spec fn usable(binary_exists: bool, force_download: bool, verified: Option<bool>) -> bool {
    binary_exists && !force_download && verified == Some(true)
}

/// Path `i` is the first that the pattern matches.
pub open spec fn first_path(paths: Seq<String>, pattern: Seq<char>, i: int) -> bool {
    &&& 0 <= i < paths.len()
    &&& regex_matches(pattern, paths[i]@)
    &&& forall|j: int| 0 <= j < i ==> !regex_matches(pattern, (#[trigger] paths[j])@)
}

/// Decides what is done to have a compiler.
#[derive(Debug, Clone, Copy)]
pub struct CompilerManager {}

impl CompilerManager {
    /// The manager; it holds no state.
    pub fn new() -> (r: CompilerManager) {
        CompilerManager {  }
    }

    /// How an archive is unpacked.
    ///
    /// Fails with a `Config` error where the text names no method.
    pub fn extraction_method(&self, method: &str) -> (r: Result<ExtractionMethod, OpenCliError>)
        ensures
            match method_named(method@) {
                Some(m) => r == Ok::<ExtractionMethod, OpenCliError>(m),
                None => r matches Err(e) && e is Config && e.message()
                    == "Unsupported extraction method: "@ + method@,
            },
    {
        if same_str(method, "zip") {
            Ok(ExtractionMethod::Zip)
        } else if same_str(method, "tgz") {
            Ok(ExtractionMethod::Tgz)
        } else {
            Err(OpenCliError::Config(join2("Unsupported extraction method: ", method)))
        }
    }

    /// Whether the compiler has to be downloaded. `verified` says what the
    /// check of the binary against its cached hash gave, `None` where no
    /// hash is cached or the check failed.
    pub fn get_compiler_path(
        &self,
        binary_exists: bool,
        force_download: bool,
        verified: Option<bool>,
    ) -> (download: bool)
        ensures
            download == !usable(binary_exists, force_download, verified),
    {
        let ok = match verified {
            Some(true) => true,
            _ => false,
        };
        !(binary_exists && !force_download && ok)
    }

    /// What comes of an installation, given whether the binary is there
    /// afterwards.
    ///
    /// Fails with `NotFound` where it is not.
    pub fn installed(&self, binary_path: &str, binary_exists: bool) -> (r: Result<(), OpenCliError>)
        ensures
            r is Ok <==> binary_exists,
            r matches Err(e) ==> e is NotFound && e.message()
                == "Compiler binary not found after installation: "@ + binary_path@,
    {
        if binary_exists {
            Ok(())
        } else {
            Err(
                OpenCliError::NotFound(
                    join2("Compiler binary not found after installation: ", binary_path),
                ),
            )
        }
    }

    /// The file that a rule of the configuration moves: the first of the
    /// paths that the pattern of the rule matches, `None` where it matches
    /// none.
    ///
    /// Fails with a `Config` error where the pattern is no regex.
    pub fn find_matching_path(&self, paths: &Vec<String>, pattern: &str) -> (r: Result<
        Option<usize>,
        OpenCliError,
    >)
        ensures
            match regex_error(pattern@) {
                Some(m) => r matches Err(e) && e is Config && e.message()
                    == "Invalid path pattern: "@ + m,
                None => match r {
                    Ok(Some(i)) => first_path(paths@, pattern@, i as int),
                    Ok(None) => forall|j: int|
                        0 <= j < paths@.len() ==> !regex_matches(pattern@, (#[trigger] paths@[j])@),
                    Err(_) => false,
                },
            },
    {
        match regex_check(pattern) {
            Some(m) => Err(OpenCliError::Config(join2("Invalid path pattern: ", m.as_str()))),
            None => {
                let mut i: usize = 0;
                while i < paths.len()
                    invariant
                        i <= paths.len(),
                        regex_error(pattern@) is None,
                        forall|j: int|
                            0 <= j < i ==> !regex_matches(pattern@, (#[trigger] paths@[j])@),
                    decreases paths.len() - i,
                {
                    if let Some(true) = regex_is_match(pattern, paths[i].as_str()) {
                        return Ok(Some(i));
                    }
                    i += 1;
                }
                Ok(None)
            },
        }
    }
}

} // verus!
