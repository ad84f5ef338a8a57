use vstd::prelude::*;
use crate::text::texts;

verus! {

/// The project's exclusion settings.
pub struct Config {
    /// Glob patterns left out of every manifest.
    pub exclude: Vec<String>,
}

impl Config {
    /// No exclusions: what a project without a settings file gets.
    pub fn empty() -> (r: Config)
        ensures
            r.exclude@.len() == 0,
    {
        Config { exclude: Vec::new() }
    }
}

/// The patterns given on the command line followed by those of the settings.
pub fn merge_excludes(given: Vec<String>, config: &Config) -> (r: Vec<String>)
    ensures
        texts(r@) == texts(given@) + texts(config.exclude@),
{
    let mut r = given;
    let ghost start = texts(r@);
    let mut i: usize = 0;
    while i < config.exclude.len()
        invariant
            i <= config.exclude@.len(),
            texts(r@) == start + texts(config.exclude@).subrange(0, i as int),
        decreases config.exclude@.len() - i,
    {
        let ghost before = r@;
        r.push(config.exclude[i].clone());
        proof {
            assert(r@ == before.push(config.exclude@[i as int]));
            assert(texts(r@) == texts(before).push(config.exclude@[i as int]@));
            assert(texts(r@) =~= start + texts(config.exclude@).subrange(0, i + 1));
        }
        i = i + 1;
    }
    proof {
        assert(texts(config.exclude@).subrange(0, config.exclude@.len() as int)
            =~= texts(config.exclude@));
    }
    r
}

} // verus!
