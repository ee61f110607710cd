//! The output path resolver: where the combined text goes, and which
//! versioned name keeps an earlier result from being overwritten.

use vstd::prelude::*;
use crate::text::{
    last_index_of, find_last, lemma_last_index_of_bounds, decimal, push_decimal,
    lemma_decimal_len, lemma_decimal_injective,
};
use crate::collect::{extension_of, file_name_of};

verus! {

/// The directory that receives output when none is named.
pub open spec fn default_dir() -> Seq<char> {
    "spliced_folder"@
}

/// The file name used when only a directory, or nothing, is named.
pub open spec fn default_file_name() -> Seq<char> {
    "output.md"@
}

/// `name` placed inside the directory `dir`.
pub open spec fn join(dir: Seq<char>, name: Seq<char>) -> Seq<char> {
    if dir.len() == 0 {
        name
    } else if dir.last() == '/' {
        dir + name
    } else {
        dir + seq!['/'] + name
    }
}

/// Whether a path is a bare file name, with no directory part.
pub open spec fn is_bare_name(p: Seq<char>) -> bool {
    last_index_of(p, '/') == -1
}

/// The path chosen before versioning, given the output argument and whether
/// it names an existing directory.
pub open spec fn target_path(arg: Option<Seq<char>>, arg_is_dir: bool) -> Seq<char> {
    match arg {
        None => join(default_dir(), default_file_name()),
        Some(p) => if arg_is_dir {
            join(p, default_file_name())
        } else if is_bare_name(p) {
            join(default_dir(), p)
        } else {
            p
        },
    }
}

/// Whether the default directory has to exist for that path.
pub open spec fn needs_default_dir(arg: Option<Seq<char>>, arg_is_dir: bool) -> bool {
    match arg {
        None => true,
        Some(p) => !arg_is_dir && is_bare_name(p),
    }
}

/// Where the output goes, and the directory to create first, if any.
pub struct OutputTarget {
    pub path: String,
    pub dir_to_create: Option<String>,
}

pub fn join_path(dir: &str, name: &str) -> (r: String)
    ensures
        r@ == join(dir@, name@),
{
    proof {
        reveal_strlit("/");
    }
    let n = dir.unicode_len();
    let mut r = String::from_str(dir);
    if n > 0 {
        if dir.get_char(n - 1) != '/' {
            r.append("/");
        }
    }
    assert(r@ =~= join(dir@, name@).subrange(0, r@.len() as int));
    r.append(name);
    assert(r@ =~= join(dir@, name@));
    r
}

/// Decides the output path from the optional output argument.
///
/// `arg_is_dir` tells whether the argument names an existing directory. With
/// no argument, or with a bare file name, the output goes into the default
/// directory, which the caller then creates; a directory receives the
/// default file name; any other path is kept as it is.
pub fn determine_output_path(output_arg: &Option<String>, arg_is_dir: bool) -> (r: OutputTarget)
    ensures
        r.path@ == target_path(
            match output_arg {
                Some(p) => Some(p@),
                None => None,
            },
            arg_is_dir,
        ),
        match r.dir_to_create {
            Some(d) => d@ == default_dir() && needs_default_dir(
                match output_arg {
                    Some(p) => Some(p@),
                    None => None,
                },
                arg_is_dir,
            ),
            None => !needs_default_dir(
                match output_arg {
                    Some(p) => Some(p@),
                    None => None,
                },
                arg_is_dir,
            ),
        },
{
    match output_arg {
        Some(p) => {
            if arg_is_dir {
                OutputTarget { path: join_path(p.as_str(), "output.md"), dir_to_create: None }
            } else if find_last(p.as_str(), '/').is_none() {
                OutputTarget {
                    path: join_path("spliced_folder", p.as_str()),
                    dir_to_create: Some(String::from_str("spliced_folder")),
                }
            } else {
                OutputTarget { path: p.clone(), dir_to_create: None }
            }
        },
        None => OutputTarget {
            path: join_path("spliced_folder", "output.md"),
            dir_to_create: Some(String::from_str("spliced_folder")),
        },
    }
}

/// The stem of a file name: the name without its extension.
pub open spec fn stem_of(name: Seq<char>) -> Seq<char> {
    let d = last_index_of(name, '.');
    if name.len() == 0 {
        "output"@
    } else if d > 0 {
        name.subrange(0, d)
    } else {
        name
    }
}

pub open spec fn extension_or_default(name: Seq<char>) -> Seq<char> {
    match extension_of(name) {
        Some(e) => e,
        None => "md"@,
    }
}

/// The directory part of a path, with its closing slash.
pub open spec fn dir_part(p: Seq<char>) -> Seq<char> {
    p.subrange(0, last_index_of(p, '/') + 1)
}

/// Nothing for the first version, `-v<n>` for version `n` after it.
pub open spec fn version_suffix(v: nat) -> Seq<char> {
    if v <= 1 {
        Seq::empty()
    } else {
        seq!['-', 'v'] + decimal(v)
    }
}

/// Version `v` of the path `p`: `stem.ext`, then `stem-v2.ext`,
/// `stem-v3.ext` and so on, in the directory of `p`.
pub open spec fn numbered_path(p: Seq<char>, v: nat) -> Seq<char> {
    let name = file_name_of(p);
    dir_part(p) + stem_of(name) + version_suffix(v) + seq!['.'] + extension_or_default(name)
}

/// Version `version` of `path`; versions 0 and 1 both give the plain name.
pub fn numbered_file_path(path: &str, version: u64) -> (r: String)
    ensures
        r@ == numbered_path(path@, version as nat),
{
    proof {
        reveal_strlit("-v");
        reveal_strlit(".");
        lemma_last_index_of_bounds(path@, '/');
    }
    let n = path.unicode_len();
    let start: usize = match find_last(path, '/') {
        Some(k) => k + 1,
        None => 0,
    };
    let name = path.substring_char(start, n);
    let mut r = String::from_str(path.substring_char(0, start));
    let m = name.unicode_len();
    proof {
        lemma_last_index_of_bounds(name@, '.');
    }
    let ext: &str = match find_last(name, '.') {
        Some(d) => {
            if d > 0 {
                r.append(name.substring_char(0, d));
                name.substring_char(d + 1, m)
            } else {
                r.append(name);
                "md"
            }
        },
        None => {
            if m == 0 {
                r.append("output");
            } else {
                r.append(name);
            }
            "md"
        },
    };
    assert(r@ =~= dir_part(path@) + stem_of(name@));
    if version > 1 {
        r.append("-v");
        push_decimal(&mut r, version);
    }
    assert(r@ =~= dir_part(path@) + stem_of(name@) + version_suffix(version as nat));
    r.append(".");
    r.append(ext);
    assert(r@ =~= numbered_path(path@, version as nat));
    r
}

/// Two different versions of one path are two different paths, so a later
/// run that moves past an existing version never writes over it.
pub proof fn lemma_versions_are_distinct(p: Seq<char>, v1: nat, v2: nat)
    requires
        v1 >= 1,
        v2 >= 1,
        v1 != v2,
    ensures
        numbered_path(p, v1) != numbered_path(p, v2),
{
    let name = file_name_of(p);
    let a = dir_part(p) + stem_of(name);
    let b = seq!['.'] + extension_or_default(name);
    let s1 = version_suffix(v1);
    let s2 = version_suffix(v2);
    assert(numbered_path(p, v1) =~= a + s1 + b);
    assert(numbered_path(p, v2) =~= a + s2 + b);
    if numbered_path(p, v1) == numbered_path(p, v2) {
        let x = a + s1 + b;
        let y = a + s2 + b;
        assert(s1.len() == s2.len());
        assert(x.subrange(a.len() as int, (a.len() + s1.len()) as int) =~= s1);
        assert(y.subrange(a.len() as int, (a.len() + s2.len()) as int) =~= s2);
        assert(s1 == s2);
        lemma_decimal_len(v1);
        lemma_decimal_len(v2);
        if v1 >= 2 && v2 >= 2 {
            assert(s1.subrange(2, s1.len() as int) =~= decimal(v1));
            assert(s2.subrange(2, s2.len() as int) =~= decimal(v2));
            lemma_decimal_injective(v1, v2);
        }
    }
}

/// The search for the first unused version of an output path. The caller
/// asks for each candidate in turn and advances while it already exists.
pub struct VersionScan {
    path: String,
    version: u64,
}

impl VersionScan {
    pub closed spec fn base(&self) -> Seq<char> {
        self.path@
    }

    pub closed spec fn version(&self) -> nat {
        self.version as nat
    }

    /// Starts at the plain name, version 1.
    pub fn new(path: &str) -> (r: VersionScan)
        ensures
            r.base() == path@,
            r.version() == 1,
    {
        VersionScan { path: String::from_str(path), version: 1 }
    }

    /// The path of the current version.
    pub fn candidate(&self) -> (r: String)
        ensures
            r@ == numbered_path(self.base(), self.version()),
    {
        numbered_file_path(self.path.as_str(), self.version)
    }

    /// Moves to the next version; false, with nothing changed, once the
    /// versions are used up.
    pub fn advance(&mut self) -> (r: bool)
        ensures
            final(self).base() == old(self).base(),
            r == (old(self).version() < u64::MAX),
            r ==> final(self).version() == old(self).version() + 1,
            !r ==> final(self).version() == old(self).version(),
    {
        if self.version < u64::MAX {
            self.version = self.version + 1;
            true
        } else {
            false
        }
    }
}

} // verus!
