//! Pairing a template with the active file it is edited into, from the
//! naming conventions of the common configuration files.

use vstd::prelude::*;
use crate::app::{contains_chars, occurs_in};
use crate::format::opt_view;
use crate::text::{chars_eq, chars_of, has_prefix, slice_chars, string_of};

verus! {

/// The file name that `std::path::Path::file_name` finds in `path` (none
/// for a path that ends in `..` or is a root), as text, on the platform the
/// crate is built for.
pub uninterp spec fn path_file_name(path: Seq<char>) -> Option<Seq<char>>;

/// The directory that `std::path::Path::parent` finds for `path` (none for
/// a root or the empty path).
pub uninterp spec fn path_parent(path: Seq<char>) -> Option<Seq<char>>;

/// The path that `std::path::Path::join` makes of `dir` and `name`.
pub uninterp spec fn path_join(dir: Seq<char>, name: Seq<char>) -> Seq<char>;

/// The path that `std::path::Path::with_file_name` makes of `path` with its
/// file name replaced by `name`.
pub uninterp spec fn path_with_file_name(path: Seq<char>, name: Seq<char>) -> Seq<char>;

/// Calls `std::path::Path::file_name` on `path` read as a path; the result
/// (text again, as the path was) is named `path_file_name`.
#[verifier::external_body]
fn file_name_of(path: &str) -> (r: Option<String>)
    ensures
        opt_view(r) == path_file_name(path@),
{
    std::path::Path::new(path).file_name().and_then(|s| s.to_str()).map(String::from)
}

/// Calls `std::path::Path::parent` on `path`; the result is named
/// `path_parent`.
#[verifier::external_body]
fn parent_of(path: &str) -> (r: Option<String>)
    ensures
        opt_view(r) == path_parent(path@),
{
    std::path::Path::new(path).parent().and_then(|p| p.to_str()).map(String::from)
}

/// Calls `std::path::Path::join`; the result is named `path_join`.
#[verifier::external_body]
fn join_path(dir: &str, name: &str) -> (r: String)
    ensures
        r@ == path_join(dir@, name@),
{
    std::path::Path::new(dir).join(name).to_string_lossy().into_owned()
}

/// Calls `std::path::Path::with_file_name`; the result is named
/// `path_with_file_name`.
#[verifier::external_body]
fn with_file_name(path: &str, name: &str) -> (r: String)
    ensures
        r@ == path_with_file_name(path@, name@),
{
    std::path::Path::new(path).with_file_name(name).to_string_lossy().into_owned()
}

/// `s` with every occurrence of `pat` (taken from the left, without
/// overlap) replaced by `rep`.
pub open spec fn replace_all(s: Seq<char>, pat: Seq<char>, rep: Seq<char>) -> Seq<char>
    decreases s.len(),
{
    if pat.len() == 0 || s.len() < pat.len() {
        s
    } else if s.take(pat.len() as int) == pat {
        rep + replace_all(s.skip(pat.len() as int), pat, rep)
    } else {
        seq![s[0]] + replace_all(s.skip(1), pat, rep)
    }
}

/// `s` with every occurrence of `pat` replaced by `rep`.
pub fn replace_chars(s: &Vec<char>, pat: &Vec<char>, rep: &Vec<char>) -> (r: Vec<char>)
    requires
        pat@.len() > 0,
    ensures
        r@ == replace_all(s@, pat@, rep@),
{
    let mut out: Vec<char> = Vec::new();
    let mut i: usize = 0;
    let n = s.len();
    let pl = pat.len();
    proof {
        assert(s@.skip(0) =~= s@);
        assert(out@ + replace_all(s@, pat@, rep@) =~= replace_all(s@, pat@, rep@));
    }
    while i < n
        invariant
            n == s@.len(),
            pl == pat@.len(),
            pl > 0,
            i <= n,
            out@ + replace_all(s@.skip(i as int), pat@, rep@) == replace_all(s@, pat@, rep@),
        decreases n - i,
    {
        let ghost rest = s@.skip(i as int);
        let matched = if n - i >= pl {
            let piece = slice_chars(s, i, i + pl);
            assert(piece@ == rest.take(pl as int));
            chars_eq(&piece, pat)
        } else {
            false
        };
        if matched {
            let mut k: usize = 0;
            let ghost o0 = out@;
            while k < rep.len()
                invariant
                    k <= rep@.len(),
                    out@ == o0 + rep@.take(k as int),
                decreases rep@.len() - k,
            {
                out.push(rep[k]);
                k = k + 1;
                assert(out@ =~= o0 + rep@.take(k as int));
            }
            proof {
                assert(rep@.take(rep@.len() as int) == rep@);
                assert(rest.skip(pl as int) =~= s@.skip(i + pl));
                assert(o0 + (rep@ + replace_all(rest.skip(pl as int), pat@, rep@)) =~= out@ + replace_all(
                    s@.skip(i + pl),
                    pat@,
                    rep@,
                ));
            }
            i = i + pl;
        } else {
            let ghost o0 = out@;
            out.push(s[i]);
            proof {
                if rest.len() < pat@.len() {
                    assert(replace_all(rest, pat@, rep@) == rest);
                    assert(rest =~= seq![rest[0]] + rest.skip(1));
                    assert(replace_all(rest.skip(1), pat@, rep@) == rest.skip(1));
                }
                assert(rest.skip(1) =~= s@.skip(i + 1));
                assert(rest[0] == s@[i as int]);
                assert(o0 + (seq![rest[0]] + replace_all(rest.skip(1), pat@, rep@)) =~= out@ + replace_all(
                    s@.skip(i + 1),
                    pat@,
                    rep@,
                ));
            }
            i = i + 1;
        }
    }
    proof {
        assert(s@.skip(n as int) =~= Seq::<char>::empty());
        assert(out@ + Seq::<char>::empty() =~= out@);
    }
    out
}

/// Whether `s` ends with `p`.
pub open spec fn has_suffix(s: Seq<char>, p: Seq<char>) -> bool {
    p.len() <= s.len() && s.skip(s.len() - p.len()) == p
}

/// The directory of a path: its parent, or `.` when it has none.
pub open spec fn dir_of(path: Seq<char>) -> Seq<char> {
    match path_parent(path) {
        Some(d) => d,
        None => "."@,
    }
}

/// The template counterparts of an active file named `name` at `path`: the
/// name with `.example` added, and the name with each dot widened to
/// `.template.`.
pub open spec fn candidates_for(path: Seq<char>, name: Seq<char>) -> Seq<Seq<char>> {
    seq![
        path_with_file_name(path, name + ".example"@),
        path_with_file_name(path, replace_all(name, "."@, ".template."@)),
    ]
}

/// The template counterparts that are looked for when `path` is an active
/// file (none when it has no file name).
pub open spec fn template_candidates_spec(path: Seq<char>) -> Seq<Seq<char>> {
    match path_file_name(path) {
        Some(name) => candidates_for(path, name),
        None => Seq::empty(),
    }
}

/// The pairing of a template and an active file for `path`, given which
/// template counterparts exist:
/// 1. `.env` and `.env.example` pair as template `.env.example`, active `.env`;
/// 2. a compose file is a template, its override file the active file;
/// 3. `<name>.template.<ext>` is a template for `<name>.<ext>`;
/// 4. `<name>.<ext>.example` is a template for `<name>.<ext>`;
/// 5. otherwise `path` is taken as an active file, paired with the first
///    existing counterpart.
pub open spec fn discovered(path: Seq<char>, existing: Seq<Seq<char>>) -> Option<(Seq<char>, Seq<char>)> {
    match path_file_name(path) {
        None => None,
        Some(name) => if name == ".env"@ || name == ".env.example"@ {
            Some((path_join(dir_of(path), ".env.example"@), path_join(dir_of(path), ".env"@)))
        } else if name == "docker-compose.yml"@ || name == "docker-compose.yaml"@ || name == "compose.yml"@ {
            Some(
                (
                    path,
                    path_join(
                        dir_of(path),
                        if name == "compose.yml"@ {
                            "compose.override.yml"@
                        } else {
                            "docker-compose.override.yml"@
                        },
                    ),
                ),
            )
        } else if occurs_in(name, ".template."@) {
            Some((path, path_with_file_name(path, replace_all(name, ".template."@, "."@))))
        } else if has_suffix(name, ".example"@) {
            Some((path, path_with_file_name(path, name.take(name.len() - 8))))
        } else {
            let c = candidates_for(path, name);
            if existing.contains(c[0]) {
                Some((c[0], path))
            } else if existing.contains(c[1]) {
                Some((c[1], path))
            } else {
                None
            }
        },
    }
}

/// `.env` and `.env.example` in one directory pair the same way: the
/// template `.env.example` with the active file `.env`, whichever of them
/// is given.
pub proof fn law_env_pairing(active: Seq<char>, template: Seq<char>, existing: Seq<Seq<char>>)
    requires
        path_file_name(active) == Some(".env"@),
        path_file_name(template) == Some(".env.example"@),
        path_parent(active) == path_parent(template),
    ensures
        discovered(active, existing) == discovered(template, existing),
        discovered(active, existing) == Some(
            (path_join(dir_of(active), ".env.example"@), path_join(dir_of(active), ".env"@)),
        ),
{
}

/// The template and output paths: the input and the override when an
/// output is given, else the discovered pairing, else the input twice.
pub open spec fn resolved(input: Seq<char>, output: Option<Seq<char>>, existing: Seq<Seq<char>>) -> (Seq<char>, Seq<char>) {
    match output {
        Some(out) => (input, out),
        None => match discovered(input, existing) {
            Some(pair) => pair,
            None => (input, input),
        },
    }
}

/// The mathematical form of a list of paths.
pub open spec fn paths_view(v: Seq<String>) -> Seq<Seq<char>> {
    v.map_values(|s: String| s@)
}

/// Whether `p` is in the list.
fn listed(v: &Vec<String>, p: &String) -> (r: bool)
    ensures
        r == paths_view(v@).contains(p@),
{
    let mut i: usize = 0;
    while i < v.len()
        invariant
            i <= v@.len(),
            forall|k: int| 0 <= k < i ==> v@[k]@ != p@,
        decreases v@.len() - i,
    {
        if v[i] == *p {
            assert(paths_view(v@)[i as int] == p@);
            return true;
        }
        i = i + 1;
    }
    proof {
        if paths_view(v@).contains(p@) {
            let k = choose|k: int| 0 <= k < paths_view(v@).len() && paths_view(v@)[k] == p@;
            assert(v@[k]@ == p@);
        }
    }
    false
}

/// Whether `s` is the word `w`.
fn is_word(s: &Vec<char>, w: &str) -> (r: bool)
    ensures
        r == (s@ == w@),
{
    let wc = chars_of(w);
    chars_eq(s, &wc)
}

/// Decides which files are read and where the result is saved.
pub struct TemplateResolver;

impl TemplateResolver {
    /// The template counterparts of `path` to look for when it is an
    /// active file; the caller says which exist.
    pub fn template_candidates(path: &str) -> (r: Vec<String>)
        ensures
            paths_view(r@) == template_candidates_spec(path@),
    {
        let mut r: Vec<String> = Vec::new();
        if let Some(name) = file_name_of(path) {
            let nc = chars_of(name.as_str());
            let mut with_ext = name.clone();
            let ext = chars_of(".example");
            let mut j: usize = 0;
            let ghost n0 = with_ext@;
            while j < ext.len()
                invariant
                    j <= ext@.len(),
                    with_ext@ == n0 + ext@.take(j as int),
                decreases ext@.len() - j,
            {
                with_ext.push(ext[j]);
                j = j + 1;
                assert(with_ext@ =~= n0 + ext@.take(j as int));
            }
            assert(ext@.take(ext@.len() as int) == ext@);
            let dot = chars_of(".");
            let tpl = chars_of(".template.");
            proof {
                reveal_strlit(".");
            }
            let widened = string_of(replace_chars(&nc, &dot, &tpl).as_slice());
            r.push(with_file_name(path, with_ext.as_str()));
            r.push(with_file_name(path, widened.as_str()));
            assert(paths_view(r@) =~= candidates_for(path@, name@));
        }
        r
    }

    /// The pairing found for `path` from its name, given the existing
    /// template counterparts (see `discovered`).
    pub fn discover_pairing(path: &str, existing: &Vec<String>) -> (r: Option<(String, String)>)
        ensures
            match r {
                Some(pair) => discovered(path@, paths_view(existing@)) == Some((pair.0@, pair.1@)),
                None => discovered(path@, paths_view(existing@)) is None,
            },
    {
        let name = match file_name_of(path) {
            Some(n) => n,
            None => return None,
        };
        let nc = chars_of(name.as_str());
        let dir = match parent_of(path) {
            Some(d) => d,
            None => String::from_str("."),
        };
        if is_word(&nc, ".env") || is_word(&nc, ".env.example") {
            return Some((join_path(dir.as_str(), ".env.example"), join_path(dir.as_str(), ".env")));
        }
        if is_word(&nc, "docker-compose.yml") || is_word(&nc, "docker-compose.yaml") || is_word(&nc, "compose.yml") {
            let over = if is_word(&nc, "compose.yml") {
                join_path(dir.as_str(), "compose.override.yml")
            } else {
                join_path(dir.as_str(), "docker-compose.override.yml")
            };
            return Some((String::from_str(path), over));
        }
        let tpl = chars_of(".template.");
        if contains_chars(&nc, &tpl) {
            let dot = chars_of(".");
            proof {
                reveal_strlit(".template.");
            }
            let out = string_of(replace_chars(&nc, &tpl, &dot).as_slice());
            return Some((String::from_str(path), with_file_name(path, out.as_str())));
        }
        let ex = chars_of(".example");
        proof {
            reveal_strlit(".example");
        }
        if nc.len() >= ex.len() {
            let tail = slice_chars(&nc, nc.len() - ex.len(), nc.len());
            assert(tail@ == nc@.skip(nc@.len() - ex@.len()));
            if chars_eq(&tail, &ex) {
                let stem = string_of(slice_chars(&nc, 0, nc.len() - ex.len()).as_slice());
                assert(nc@.subrange(0, nc@.len() - 8) == nc@.take(nc@.len() - 8));
                return Some((String::from_str(path), with_file_name(path, stem.as_str())));
            }
        }
        let cands = Self::template_candidates(path);
        assert(paths_view(cands@) == candidates_for(path@, name@));
        if listed(existing, &cands[0]) {
            return Some((cands[0].clone(), String::from_str(path)));
        }
        if listed(existing, &cands[1]) {
            return Some((cands[1].clone(), String::from_str(path)));
        }
        None
    }

    /// The template and output paths for an input: the input and the given
    /// output, when there is one; else the discovered pairing; else the
    /// input as both.
    pub fn resolve(input: &str, output_override: Option<String>, existing: &Vec<String>) -> (r: (String, String))
        ensures
            (r.0@, r.1@) == resolved(input@, opt_view(output_override), paths_view(existing@)),
    {
        if let Some(out) = output_override {
            return (String::from_str(input), out);
        }
        match Self::discover_pairing(input, existing) {
            Some(pair) => pair,
            None => (String::from_str(input), String::from_str(input)),
        }
    }
}

/// What a session does with the template once the output file has been
/// read (or not).
#[derive(Debug, Clone, Copy, PartialEq, Eq, Structural)]
pub enum LoadStep {
    /// Read the template, every entry missing from the active file.
    TemplateAsMissing,
    /// Merge the template into the entries read.
    MergeTemplate,
    /// Read the input file itself.
    ReadInput,
    /// Keep the entries read.
    Keep,
}

/// Whether the session first reads the output file: it exists and is not
/// the template.
pub fn reads_output(output_exists: bool, distinct: bool) -> (r: bool)
    ensures
        r == (output_exists && distinct),
{
    output_exists && distinct
}

/// The step after the output file: with a template that exists and is not
/// the output, read it as missing when nothing was read, else merge it;
/// without one, read the input when nothing was read, else keep.
pub open spec fn load_step(template_exists: bool, distinct: bool, have_entries: bool) -> LoadStep {
    if template_exists && distinct {
        if have_entries {
            LoadStep::MergeTemplate
        } else {
            LoadStep::TemplateAsMissing
        }
    } else if have_entries {
        LoadStep::Keep
    } else {
        LoadStep::ReadInput
    }
}

/// The step after the output file (see `load_step`).
pub fn template_step(template_exists: bool, distinct: bool, have_entries: bool) -> (r: LoadStep)
    ensures
        r == load_step(template_exists, distinct, have_entries),
{
    if template_exists && distinct {
        if have_entries {
            LoadStep::MergeTemplate
        } else {
            LoadStep::TemplateAsMissing
        }
    } else if have_entries {
        LoadStep::Keep
    } else {
        LoadStep::ReadInput
    }
}

/// A Docker Compose file is a template whose active file is its override
/// file in the same directory: `docker-compose.yml` and
/// `docker-compose.yaml` pair with `docker-compose.override.yml`, and only
/// `compose.yml` pairs with `compose.override.yml`; which other files exist
/// does not matter.
pub proof fn law_compose_pairing(path: Seq<char>, existing: Seq<Seq<char>>)
    requires
        path_file_name(path) == Some("docker-compose.yml"@) || path_file_name(path) == Some(
            "docker-compose.yaml"@,
        ) || path_file_name(path) == Some("compose.yml"@),
    ensures
        path_file_name(path) == Some("compose.yml"@) ==> discovered(path, existing) == Some(
            (path, path_join(dir_of(path), "compose.override.yml"@)),
        ),
        path_file_name(path) != Some("compose.yml"@) ==> discovered(path, existing) == Some(
            (path, path_join(dir_of(path), "docker-compose.override.yml"@)),
        ),
{
    reveal_strlit(".env");
    reveal_strlit(".env.example");
    reveal_strlit("docker-compose.yml");
    reveal_strlit("docker-compose.yaml");
    reveal_strlit("compose.yml");
    let name = path_file_name(path).unwrap();
    assert(name.len() != (".env"@).len() || name[0] != '.');
    assert(name != ".env"@);
    assert(name != ".env.example"@);
    if name != "compose.yml"@ {
        assert(name == "docker-compose.yml"@ || name == "docker-compose.yaml"@);
    }
}

} // verus!
