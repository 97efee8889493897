//! Project configuration (`.kimi.toml`): the settings it may hold and how the
//! tool reads them. Finding and parsing the file is left to the caller.
use vstd::prelude::*;

use crate::text::{chars_of, contains, contains_chars};

verus! {

/// The whole configuration file.
pub struct KimiConfig {
    pub contracts: Option<ContractsConfig>,
    pub score: Option<ScoreConfig>,
    pub output: Option<OutputConfig>,
}

/// The `[contracts]` table.
pub struct ContractsConfig {
    pub strictness: Option<String>,
    /// `fail-on-drop` in the file.
    pub fail_on_drop: Option<u32>,
}

/// The `[score]` table.
pub struct ScoreConfig {
    pub ignore: Vec<String>,
}

/// The `[output]` table.
pub struct OutputConfig {
    pub format: Option<String>,
}

/// A strictness level as the user wrote it.
pub struct Strictness(pub String);

impl Default for KimiConfig {
    /// No table set: every setting falls back to the command line.
    fn default() -> (r: Self)
        ensures
            r.contracts is None,
            r.score is None,
            r.output is None,
    {
        KimiConfig { contracts: None, score: None, output: None }
    }
}

impl KimiConfig {
    pub open spec fn strictness_spec(&self) -> Option<Seq<char>> {
        match self.contracts {
            Some(c) => match c.strictness {
                Some(s) => Some(s@),
                None => None,
            },
            None => None,
        }
    }

    pub open spec fn output_format_spec(&self) -> Option<Seq<char>> {
        match self.output {
            Some(o) => match o.format {
                Some(f) => Some(f@),
                None => None,
            },
            None => None,
        }
    }

    /// A path is ignored when one of the `[score] ignore` patterns occurs in it.
    pub open spec fn ignores(&self, path: Seq<char>) -> bool {
        match self.score {
            Some(s) => exists|i: int| 0 <= i < s.ignore@.len() && contains(path, #[trigger] s.ignore@[i]@),
            None => false,
        }
    }

    /// The configured strictness level, if any.
    pub fn strictness(&self) -> (r: Option<&str>)
        ensures
            match r {
                Some(s) => self.strictness_spec() == Some(s@),
                None => self.strictness_spec() is None,
            },
    {
        match &self.contracts {
            Some(c) => match &c.strictness {
                Some(s) => Some(s.as_str()),
                None => None,
            },
            None => None,
        }
    }

    /// The configured output format, if any.
    pub fn output_format(&self) -> (r: Option<&str>)
        ensures
            match r {
                Some(f) => self.output_format_spec() == Some(f@),
                None => self.output_format_spec() is None,
            },
    {
        match &self.output {
            Some(o) => match &o.format {
                Some(f) => Some(f.as_str()),
                None => None,
            },
            None => None,
        }
    }

    /// The configured fail-on-drop threshold, if any.
    pub fn fail_on_drop(&self) -> (r: Option<u32>)
        ensures
            r == match self.contracts {
                Some(c) => c.fail_on_drop,
                None => None,
            },
    {
        match &self.contracts {
            Some(c) => c.fail_on_drop,
            None => None,
        }
    }

    /// Whether `path` matches one of the ignore patterns (by substring).
    pub fn should_ignore(&self, path: &str) -> (r: bool)
        ensures
            r == self.ignores(path@),
    {
        match &self.score {
            Some(s) => {
                let p = chars_of(path);
                let mut i: usize = 0;
                while i < s.ignore.len()
                    invariant
                        i <= s.ignore@.len(),
                        p@ == path@,
                        self.score == Some(*s),
                        forall|j: int| 0 <= j < i ==> !contains(path@, #[trigger] s.ignore@[j]@),
                    decreases s.ignore@.len() - i,
                {
                    if contains_chars(&p, &chars_of(s.ignore[i].as_str())) {
                        let ghost sc = self.score->0;
                        assert(sc.ignore@[i as int]@ == s.ignore@[i as int]@);
                        assert(0 <= i < sc.ignore@.len() && contains(path@, sc.ignore@[i as int]@));
                        assert(self.ignores(path@));
                        return true;
                    }
                    i = i + 1;
                }
                false
            },
            None => false,
        }
    }
}

/// `dir.join(".kimi.toml")`: the configuration file inside a directory.
pub open spec fn file_in_dir(dir: Seq<char>) -> Seq<char> {
    if dir.len() > 0 && dir.last() == '/' {
        dir + ".kimi.toml"@
    } else {
        dir + "/.kimi.toml"@
    }
}

/// Which configuration file to read: the path given (its `.kimi.toml` when it
/// is a directory), else `.kimi.toml` when it exists, else `kimi.toml` when it
/// exists; `None` means the defaults apply.
pub open spec fn config_source_spec(
    given: Option<Seq<char>>,
    given_is_dir: bool,
    dot_file_exists: bool,
    plain_file_exists: bool,
) -> Option<Seq<char>> {
    match given {
        Some(p) => if given_is_dir {
            Some(file_in_dir(p))
        } else {
            Some(p)
        },
        None => if dot_file_exists {
            Some(".kimi.toml"@)
        } else if plain_file_exists {
            Some("kimi.toml"@)
        } else {
            None
        },
    }
}

/// The configuration file to read (see [`config_source_spec`]); whether the
/// given path is a directory and which default files exist are asked of the
/// file system by the caller.
pub fn config_source(
    given: Option<String>,
    given_is_dir: bool,
    dot_file_exists: bool,
    plain_file_exists: bool,
) -> (r: Option<String>)
    ensures
        match r {
            Some(p) => config_source_spec(
                match given {
                    Some(g) => Some(g@),
                    None => None,
                },
                given_is_dir,
                dot_file_exists,
                plain_file_exists,
            ) == Some(p@),
            None => config_source_spec(None, given_is_dir, dot_file_exists, plain_file_exists)
                is None && given is None,
        },
{
    match given {
        Some(p) => if given_is_dir {
            let mut f = p;
            let cs = chars_of(f.as_str());
            if cs.len() > 0 && cs[cs.len() - 1] == '/' {
                f.append(".kimi.toml");
            } else {
                f.append("/.kimi.toml");
            }
            Some(f)
        } else {
            Some(p)
        },
        None => if dot_file_exists {
            Some(String::from_str(".kimi.toml"))
        } else if plain_file_exists {
            Some(String::from_str("kimi.toml"))
        } else {
            None
        },
    }
}

/// A path is ignored exactly when one of the `[score] ignore` patterns occurs
/// in it as a run of consecutive characters, anywhere: at the start, in the
/// middle or at the very end (a pattern equal to the whole path included).
pub proof fn law_ignored_paths_hold_a_pattern(cfg: KimiConfig, path: Seq<char>)
    ensures
        cfg.ignores(path) <==> (cfg.score matches Some(sc) && exists|i: int, k: int|
            0 <= i < sc.ignore@.len() && 0 <= k && k + sc.ignore@[i]@.len() <= path.len()
                && #[trigger] path.subrange(k, k + sc.ignore@[i]@.len()) == #[trigger] sc.ignore@[i]@),
{
    match cfg.score {
        Some(sc) => {
            if cfg.ignores(path) {
                let i = choose|i: int| 0 <= i < sc.ignore@.len() && contains(path, #[trigger] sc.ignore@[i]@);
                let k = choose|k: int| crate::text::occurs_at(path, sc.ignore@[i]@, k);
                assert(path.subrange(k, k + sc.ignore@[i]@.len()) == sc.ignore@[i]@);
            }
            if exists|i: int, k: int|
                0 <= i < sc.ignore@.len() && 0 <= k && k + sc.ignore@[i]@.len() <= path.len()
                    && #[trigger] path.subrange(k, k + sc.ignore@[i]@.len()) == #[trigger] sc.ignore@[i]@ {
                let (i, k) = choose|i: int, k: int|
                    0 <= i < sc.ignore@.len() && 0 <= k && k + sc.ignore@[i]@.len() <= path.len()
                        && #[trigger] path.subrange(k, k + sc.ignore@[i]@.len()) == #[trigger] sc.ignore@[i]@;
                assert(crate::text::occurs_at(path, sc.ignore@[i]@, k));
                assert(contains(path, sc.ignore@[i]@));
            }
        },
        None => {},
    }
}

} // verus!
