//! The releases of the compiler: which repository holds a version, and which
//! asset of a release is the one for this platform.

use crate::result::{join2, OpenCliError};
use crate::text::same_str;
use regex::Regex;
use vstd::prelude::*;

verus! {

/// A file attached to a release of the compiler.
#[derive(Debug, Clone)]
pub struct GitHubAsset {
    pub name: String,
    pub download_url: String,
}

/// The message with which the regex engine refuses a pattern, `None` where
/// it accepts it.
pub uninterp spec fn regex_error(pattern: Seq<char>) -> Option<Seq<char>>;

/// Whether the regex of a pattern that the engine accepts matches somewhere
/// in a text.
pub uninterp spec fn regex_matches(pattern: Seq<char>, text: Seq<char>) -> bool;

/// `Regex::new`: the message of the error with which the pattern is
/// refused, `None` where it compiles. It depends on the pattern alone.
#[verifier::external_body]
pub(crate) fn regex_check(pattern: &str) -> (r: Option<String>)
    ensures
        r matches Some(m) ==> regex_error(pattern@) == Some(m@),
        r is None ==> regex_error(pattern@) is None,
{
    Regex::new(pattern).err().map(|e| e.to_string())
}

/// `Regex::new` and then `Regex::is_match`: whether the regex of the pattern
/// matches somewhere in the text, `None` where the pattern does not
/// compile. It depends on the pattern and the text alone.
#[verifier::external_body]
pub(crate) fn regex_is_match(pattern: &str, text: &str) -> (r: Option<bool>)
    ensures
        r matches Some(b) ==> regex_error(pattern@) is None && b == regex_matches(pattern@, text@),
        r is None ==> regex_error(pattern@) is Some,
{
    Regex::new(pattern).ok().map(|re| re.is_match(text))
}

/// The owner and the name of the repository that publishes a version of the
/// compiler.
pub open spec fn release_repository(version: Seq<char>) -> (Seq<char>, Seq<char>) {
    if version == "v3.10.11"@ {
        ("openmultiplayer"@, "compiler"@)
    } else {
        ("pawn-lang"@, "compiler"@)
    }
}

/// The regex that a pattern of the configuration stands for: a few names
/// stand for the regex of a platform, any other pattern for itself.
pub open spec fn effective_pattern(pattern: Seq<char>) -> Seq<char> {
    if pattern == "pawnc"@ {
        "pawnc-.+"@
    } else if pattern == "darwin"@ {
        "darwin|macos"@
    } else {
        pattern
    }
}

/// Asset `i` is the first whose name the pattern matches.
pub open spec fn first_match(assets: Seq<GitHubAsset>, pattern: Seq<char>, i: int) -> bool {
    &&& 0 <= i < assets.len()
    &&& regex_matches(pattern, assets[i].name@)
    &&& forall|j: int| 0 <= j < i ==> !regex_matches(pattern, (#[trigger] assets[j]).name@)
}

/// Decides where the compiler comes from.
#[derive(Debug, Clone, Copy, Default)]
pub struct CompilerDownloader {}

impl CompilerDownloader {
    /// The downloader; it holds no state.
    pub fn new() -> (r: CompilerDownloader) {
        CompilerDownloader {  }
    }

    /// The owner and the name of the repository that publishes `version`.
    pub fn get_release_assets(&self, version: &str) -> (r: (&'static str, &'static str))
        ensures
            (r.0@, r.1@) == release_repository(version@),
    {
        if same_str(version, "v3.10.11") {
            ("openmultiplayer", "compiler")
        } else {
            ("pawn-lang", "compiler")
        }
    }

    /// The regex that a pattern of the configuration stands for.
    pub fn pattern_for(&self, pattern: &str) -> (r: String)
        ensures
            r@ == effective_pattern(pattern@),
    {
        if same_str(pattern, "pawnc") {
            "pawnc-.+".to_owned()
        } else if same_str(pattern, "darwin") {
            "darwin|macos".to_owned()
        } else {
            pattern.to_owned()
        }
    }

    /// The first asset whose name the pattern matches.
    ///
    /// Fails with a `Config` error where the pattern is no regex, and with
    /// `NotFound` where it matches no name.
    pub fn find_matching_asset<'a>(&self, assets: &'a Vec<GitHubAsset>, pattern: &str) -> (r: Result<
        &'a GitHubAsset,
        OpenCliError,
    >)
        ensures
            match regex_error(effective_pattern(pattern@)) {
                Some(m) => r matches Err(e) && e is Config && e.message()
                    == "Invalid regex pattern: "@ + m,
                None => match r {
                    Ok(asset) => exists|i: int|
                        first_match(assets@, effective_pattern(pattern@), i) && *asset
                            == #[trigger] assets@[i],
                    Err(e) => e is NotFound && e.message() == "No asset matches pattern: "@
                        + pattern@ && forall|j: int|
                        0 <= j < assets@.len() ==> !regex_matches(
                            effective_pattern(pattern@),
                            (#[trigger] assets@[j]).name@,
                        ),
                },
            },
    {
        let p = self.pattern_for(pattern);
        match regex_check(p.as_str()) {
            Some(m) => Err(OpenCliError::Config(join2("Invalid regex pattern: ", m.as_str()))),
            None => {
                let mut i: usize = 0;
                while i < assets.len()
                    invariant
                        i <= assets.len(),
                        p@ == effective_pattern(pattern@),
                        regex_error(p@) is None,
                        forall|j: int|
                            0 <= j < i ==> !regex_matches(p@, (#[trigger] assets@[j]).name@),
                    decreases assets.len() - i,
                {
                    if let Some(true) = regex_is_match(p.as_str(), assets[i].name.as_str()) {
                        assert(first_match(assets@, p@, i as int));
                        return Ok(&assets[i]);
                    }
                    i += 1;
                }
                Err(OpenCliError::NotFound(join2("No asset matches pattern: ", pattern)))
            },
        }
    }
}

} // verus!
