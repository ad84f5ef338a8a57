use vstd::prelude::*;
use globset::{Glob, GlobSet};
use crate::error::Error;
use crate::text::{push_text, string_of, texts};
use crate::watch::{in_metadata_dir, is_metadata_path};

verus! {

#[verifier::external_type_specification]
#[verifier::external_body]
pub struct ExGlob(Glob);

#[verifier::external_type_specification]
#[verifier::external_body]
pub struct ExGlobSet(GlobSet);

/// The pattern text is a well-formed glob.
pub uninterp spec fn glob_compiles(p: Seq<char>) -> bool;

/// Relies on globset's `Glob::new`: whether a pattern compiles depends on its
/// text alone.
#[verifier::external_body]
fn compile_glob(p: &str) -> (r: Option<Glob>)
    ensures
        r is Some <==> glob_compiles(p@),
{
    Glob::new(p).ok()
}

/// A set of the given glob texts can be built.
pub uninterp spec fn glob_set_builds(pats: Seq<Seq<char>>) -> bool;

/// The set of the given glob texts matches the whole path.
pub uninterp spec fn glob_set_match(pats: Seq<Seq<char>>, path: Seq<char>) -> bool;

/// Relies on globset's `Glob::new` and `GlobSet::new`: whether a set of
/// pattern texts builds depends on those texts alone.
#[verifier::external_body]
fn build_glob_set(pats: &Vec<String>) -> (r: Option<GlobSet>)
    ensures
        r is Some <==> glob_set_builds(texts(pats@)),
{
    let globs: Option<Vec<Glob>> = pats.iter().map(|p| Glob::new(p).ok()).collect();
    GlobSet::new(globs?).ok()
}

/// Relies on globset's `GlobSet::is_match` on the whole path; the set of an
/// `ExcludeSet` is only ever built by `ExcludeSet::new` from its patterns.
#[verifier::external_body]
fn exclude_set_matches(s: &ExcludeSet, path: &str) -> (r: bool)
    ensures
        r == glob_set_match(s.patterns(), path@),
{
    s.set.is_match(path)
}

pub const ANY_DEPTH: &'static str = "**/";

/// The exclusion rules of a tree walk: the metadata directory, and a set of
/// glob patterns that apply at any depth.
pub struct ExcludeSet {
    set: GlobSet,
    pats: Vec<String>,
}

/// Each pattern prefixed so that it applies at any depth.
pub open spec fn any_depth(patterns: Seq<Seq<char>>) -> Seq<Seq<char>> {
    patterns.map_values(|p: Seq<char>| ANY_DEPTH@ + p)
}

impl ExcludeSet {
    /// The compiled pattern texts.
    pub closed spec fn patterns(&self) -> Seq<Seq<char>> {
        texts(self.pats@)
    }

    /// Compiles the patterns, each one prefixed so that it matches at any
    /// depth; the first pattern that is not a glob is reported.
    pub fn new(patterns: &Vec<String>) -> (r: Result<ExcludeSet, Error>)
        ensures
            r matches Ok(s) ==> s.patterns() == any_depth(texts(patterns@)),
            r is Ok <==> (forall|i: int| 0 <= i < patterns@.len() ==> glob_compiles(ANY_DEPTH@ + #[trigger] patterns@[i]@))
                && glob_set_builds(any_depth(texts(patterns@))),
            r matches Err(e) ==> e matches Error::InvalidGlob(p) && (p@.len() == 0 || exists|i: int|
                0 <= i < patterns@.len() && p@ == patterns@[i]@ && !glob_compiles(ANY_DEPTH@ + patterns@[i]@)),
    {
        let mut full: Vec<String> = Vec::new();
        let mut i: usize = 0;
        while i < patterns.len()
            invariant
                i <= patterns@.len(),
                forall|j: int| 0 <= j < i ==> glob_compiles(ANY_DEPTH@ + #[trigger] patterns@[j]@),
                full@.len() == i,
                forall|j: int| 0 <= j < i ==> #[trigger] full@[j]@ == ANY_DEPTH@ + patterns@[j]@,
            decreases patterns@.len() - i,
        {
            let mut f = string_of(ANY_DEPTH);
            push_text(&mut f, patterns[i].as_str());
            if compile_glob(f.as_str()).is_none() {
                return Err(Error::InvalidGlob(patterns[i].clone()));
            }
            full.push(f);
            i = i + 1;
        }
        proof {
            assert(texts(full@) =~= any_depth(texts(patterns@)));
        }
        match build_glob_set(&full) {
            Some(set) => Ok(ExcludeSet { set, pats: full }),
            None => {
                proof { reveal_strlit(""); }
                Err(Error::InvalidGlob(string_of("")))
            },
        }
    }

    /// Whether a walk leaves `path` out: the metadata directory, or a path
    /// that a pattern matches.
    pub fn is_excluded(&self, path: &str) -> (r: bool)
        ensures
            r == (in_metadata_dir(path@) || glob_set_match(self.patterns(), path@)),
    {
        if is_metadata_path(path) {
            return true;
        }
        exclude_set_matches(self, path)
    }
}

} // verus!
