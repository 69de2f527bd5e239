use vstd::prelude::*;
use vstd::string::*;
use crate::error::AgentError as LibError;

verus! {

// region:    --- Paths

/// The path `part` appended to `base`. The library's paths use `/` as their
/// only separator on every target (Windows accepts `/` too), and follow the
/// Unix rules of `Path::join`: an absolute `part` (starting with `/`) stands
/// alone; otherwise a `/` is put between the two unless `base` is empty or
/// already ends with one. A `part` that only Windows counts as absolute (a
/// drive prefix, a leading `\\`) is appended like a relative one.
pub open spec fn spec_join(base: Seq<char>, part: Seq<char>) -> Seq<char> {
    if part.len() > 0 && part[0] == '/' {
        part
    } else if base.len() == 0 || base.last() == '/' {
        base + part
    } else {
        base + seq!['/'] + part
    }
}

/// Appends the path `part` to the path `base`.
pub fn join_path(base: &str, part: &str) -> (r: String)
    ensures
        r@ == spec_join(base@, part@),
{
    let part_len = part.unicode_len();
    if part_len > 0 && part.get_char(0) == '/' {
        return part.to_owned();
    }
    let base_len = base.unicode_len();
    let mut r = base.to_owned();
    if base_len > 0 && base.get_char(base_len - 1) != '/' {
        r.append("/");
        proof {
            reveal_strlit("/");
        }
    }
    r.append(part);
    r
}

/// A relative part (not starting with `/`) joined to `base` gives a path
/// that starts with `base`.
pub proof fn lemma_join_extends(base: Seq<char>, part: Seq<char>)
    requires
        !(part.len() > 0 && part[0] == '/'),
    ensures
        spec_join(base, part).len() >= base.len(),
        spec_join(base, part).subrange(0, base.len() as int) == base,
{
    assert(spec_join(base, part).subrange(0, base.len() as int) =~= base);
}

/// How paths are joined, whatever `base` starts with: an absolute part
/// stands alone; to an empty base or one ending in `/` the part is appended;
/// otherwise a `/` goes between them (so `"/a"` and `"b"` give `"/a/b"`).
pub proof fn lemma_join_cases(base: Seq<char>, part: Seq<char>)
    ensures
        part.len() > 0 && part[0] == '/' ==> spec_join(base, part) == part,
        !(part.len() > 0 && part[0] == '/') && base.len() > 0 && base[base.len() - 1] != '/'
            ==> spec_join(base, part) == base + seq!['/'] + part,
        !(part.len() > 0 && part[0] == '/') && (base.len() == 0 || base[base.len() - 1] == '/')
            ==> spec_join(base, part) == base + part,
        !(part.len() > 0 && part[0] == '/') ==> spec_join(base, part).len() >= base.len() + part.len(),
{
}

/// The position of the last `/` of `p`, or -1 when it has none.
pub open spec fn last_slash(p: Seq<char>) -> int
    decreases p.len(),
{
    if p.len() == 0 {
        -1
    } else if p.last() == '/' {
        p.len() - 1
    } else {
        last_slash(p.drop_last())
    }
}

/// The file name of a path, as `Path::file_name` finds it with `/` as the
/// separator, or empty where it finds none: the last component, skipping
/// empty and `.` components at the end; none when that component is `..` or
/// when there is no component.
pub open spec fn spec_file_name(p: Seq<char>) -> Seq<char>
    decreases p.len(),
{
    let i = last_slash(p);
    let seg = p.subrange(i + 1, p.len() as int);
    if seg.len() == 0 || seg == seq!['.'] {
        if i < 0 {
            Seq::empty()
        } else {
            proof {
                lemma_last_slash_range(p);
            }
            spec_file_name(p.subrange(0, i))
        }
    } else if seg == seq!['.', '.'] {
        Seq::empty()
    } else {
        seg
    }
}

/// `last_slash` lies in the path, or is -1.
pub proof fn lemma_last_slash_range(p: Seq<char>)
    ensures
        -1 <= last_slash(p) < p.len(),
        last_slash(p) >= 0 ==> p[last_slash(p)] == '/',
    decreases p.len(),
{
    if p.len() > 0 && p.last() != '/' {
        lemma_last_slash_range(p.drop_last());
    }
}

/// `last_slash` of a prefix of `p` whose tail after `i` holds no `/`, where
/// `i` is 0 or just after a `/`.
proof fn lemma_last_slash(p: Seq<char>, i: int)
    requires
        0 <= i <= p.len(),
        i == 0 || p[i - 1] == '/',
        forall|j: int| i <= j < p.len() ==> p[j] != '/',
    ensures
        last_slash(p) == i - 1,
    decreases p.len() - i,
{
    if p.len() > i {
        let q = p.drop_last();
        assert forall|j: int| i <= j < q.len() implies q[j] != '/' by {
            assert(q[j] == p[j]);
        }
        if i > 0 {
            assert(q[i - 1] == p[i - 1]);
        }
        lemma_last_slash(q, i);
    } else if i > 0 {
        assert(p.last() == '/');
    }
}

/// The file name of a path is its last component whenever that is a name,
/// even one starting with `.` (as `.env`): for a component `s` with no `/`
/// that is neither `.` nor `..`, both `s` alone and `d/s` have `s` as their
/// file name; `d/..` has none; and `d/s/` and `d/s/.` have the file name of
/// `d/s`.
pub proof fn lemma_file_name_last_component(d: Seq<char>, s: Seq<char>)
    requires
        s.len() > 0,
        forall|j: int| 0 <= j < s.len() ==> s[j] != '/',
        s != seq!['.'],
        s != seq!['.', '.'],
    ensures
        spec_file_name(s) == s,
        spec_file_name(d + seq!['/'] + s) == s,
        spec_file_name(d + seq!['/'] + s + seq!['/']) == s,
        spec_file_name(d + seq!['/'] + s + seq!['/', '.']) == s,
        spec_file_name(d + seq!['/', '.', '.']) == Seq::<char>::empty(),
{
    lemma_last_slash(s, 0);
    assert(s.subrange(0, s.len() as int) =~= s);
    let p = d + seq!['/'] + s;
    assert forall|j: int| d.len() + 1 <= j < p.len() implies p[j] != '/' by {
        assert(p[j] == s[j - d.len() - 1]);
    }
    lemma_last_slash(p, d.len() as int + 1);
    assert(p.subrange(d.len() as int + 1, p.len() as int) =~= s);
    let q = p + seq!['/'];
    lemma_last_slash(q, q.len() as int);
    assert(q.subrange(q.len() as int, q.len() as int) =~= Seq::<char>::empty());
    assert(q.subrange(0, p.len() as int) =~= p);
    let r = p + seq!['/', '.'];
    assert forall|j: int| p.len() + 1 <= j < r.len() implies r[j] != '/' by {}
    lemma_last_slash(r, p.len() as int + 1);
    assert(r.subrange(p.len() as int + 1, r.len() as int) =~= seq!['.']);
    assert(r.subrange(0, p.len() as int) =~= p);
    let u = d + seq!['/', '.', '.'];
    assert forall|j: int| d.len() + 1 <= j < u.len() implies u[j] != '/' by {}
    lemma_last_slash(u, d.len() as int + 1);
    assert(u.subrange(d.len() as int + 1, u.len() as int) =~= seq!['.', '.']);
}

/// The file name of the path `path` (empty where there is none).
pub fn x_file_name(path: &str) -> (r: &str)
    ensures
        r@ == spec_file_name(path@),
{
    let n = path.unicode_len();
    let mut end: usize = n;
    assert(path@.subrange(0, n as int) =~= path@);
    loop
        invariant
            end <= n,
            n == path@.len(),
            spec_file_name(path@.subrange(0, end as int)) == spec_file_name(path@),
        decreases end,
    {
        let ghost p = path@.subrange(0, end as int);
        let mut start: usize = end;
        while start > 0 && path.get_char(start - 1) != '/'
            invariant
                start <= end <= n,
                n == path@.len(),
                forall|j: int| start <= j < end ==> path@[j] != '/',
            decreases start,
        {
            start = start - 1;
        }
        proof {
            assert forall|j: int| start <= j < p.len() implies p[j] != '/' by {
                assert(p[j] == path@[j]);
            }
            if start > 0 {
                assert(p[start - 1] == path@[start - 1]);
            }
            lemma_last_slash(p, start as int);
        }
        let len = end - start;
        let is_dot = len == 1 && path.get_char(start) == '.';
        let is_dot_dot = len == 2 && path.get_char(start) == '.' && path.get_char(start + 1) == '.';
        let ghost seg = p.subrange(start as int, p.len() as int);
        assert(seg =~= path@.subrange(start as int, end as int));
        if len == 0 || is_dot {
            proof {
                if is_dot {
                    assert(seg =~= seq!['.']);
                } else {
                    assert(seg.len() == 0);
                }
            }
            if start == 0 {
                proof {
                    reveal_strlit("");
                }
                return "";
            }
            assert(p.subrange(0, start - 1) =~= path@.subrange(0, start - 1));
            end = start - 1;
        } else if is_dot_dot {
            assert(seg =~= seq!['.', '.']);
            proof {
                reveal_strlit("");
            }
            return "";
        } else {
            proof {
                if seg == seq!['.'] {
                    assert(seg[0] == path@[start as int]);
                }
                if seg == seq!['.', '.'] {
                    assert(seg[0] == path@[start as int]);
                    assert(seg[1] == path@[start + 1]);
                }
            }
            return path.substring_char(start, end);
        }
    }
}

// endregion: --- Paths

// region:    --- Globs

#[verifier::external_type_specification]
#[verifier::external_body]
pub struct ExGlob(globset::Glob);

#[verifier::external_type_specification]
#[verifier::external_body]
pub struct ExGlobSet(globset::GlobSet);

#[verifier::external_type_specification]
#[verifier::external_body]
pub struct ExGlobSetBuilder(globset::GlobSetBuilder);

#[verifier::external_type_specification]
#[verifier::external_body]
pub struct ExGlobError(globset::Error);

/// What `globset::Glob::new` makes of `pattern`, with globset's default
/// options: `None` when it parses, else the message of its error. It depends
/// on the pattern and on the target the program is built for (where `\\` is
/// a path separator, it is no escape).
pub uninterp spec fn glob_parse_error(pattern: Seq<char>) -> Option<Seq<char>>;

/// `globset::Glob::new` accepts `pattern`.
pub open spec fn glob_parses(pattern: Seq<char>) -> bool {
    glob_parse_error(pattern) is None
}

/// The message of a globset error (what its `Display` writes).
pub uninterp spec fn error_text(err: globset::Error) -> Seq<char>;

/// The pattern a glob was parsed from (what `globset::Glob::glob` gives).
pub uninterp spec fn glob_text(glob: globset::Glob) -> Seq<char>;

/// The patterns of the globs a `globset::GlobSetBuilder` holds, in the
/// order they were added.
pub uninterp spec fn builder_globs(builder: globset::GlobSetBuilder) -> Seq<Seq<char>>;

/// The patterns of the globs a `globset::GlobSet` was built from, in order.
pub uninterp spec fn set_globs(set: globset::GlobSet) -> Seq<Seq<char>>;

/// Whether the glob of `pattern` (default options) matches `path`, as
/// globset decides it on the target the program is built for.
pub uninterp spec fn glob_matches(pattern: Seq<char>, path: Seq<char>) -> bool;

/// What `globset::GlobSetBuilder::build` makes of globs of these patterns
/// (default options): `None` when it builds the set, else the message of its
/// error; it can fail when a glob's regex is too large.
pub uninterp spec fn glob_set_build_error(patterns: Seq<Seq<char>>) -> Option<Seq<char>>;

/// `globset::GlobSetBuilder::build` builds a set of globs of these patterns.
pub open spec fn glob_set_builds(patterns: Seq<Seq<char>>) -> bool {
    glob_set_build_error(patterns) is None
}

/// Calls `globset::Glob::new`, which parses a glob pattern with the default
/// options. Claimed: it succeeds exactly when the pattern parses
/// (`glob_parse_error` is `None`), the glob keeps the pattern it was parsed
/// from, and the error is the one `glob_parse_error` names.
#[verifier::external_body]
fn glob_new(pattern: &str) -> (r: Result<globset::Glob, globset::Error>)
    ensures
        r is Ok == (glob_parse_error(pattern@) is None),
        r matches Ok(g) ==> glob_text(g) == pattern@,
        r matches Err(e) ==> glob_parse_error(pattern@) == Some(error_text(e)),
{
    globset::Glob::new(pattern)
}

/// Calls `globset::GlobSetBuilder::new`. Claimed: the builder holds no glob.
#[verifier::external_body]
fn glob_set_builder() -> (r: globset::GlobSetBuilder)
    ensures
        builder_globs(r) == Seq::<Seq<char>>::empty(),
{
    globset::GlobSetBuilder::new()
}

/// Calls `globset::GlobSetBuilder::add`, which pushes a glob onto the
/// builder's list. Claimed: the builder then holds its globs and, last, this
/// one.
#[verifier::external_body]
fn glob_set_builder_add(builder: globset::GlobSetBuilder, glob: globset::Glob) -> (r:
    globset::GlobSetBuilder)
    ensures
        builder_globs(r) == builder_globs(builder).push(glob_text(glob)),
{
    let mut builder = builder;
    builder.add(glob);
    builder
}

/// Calls `globset::GlobSetBuilder::build`, which compiles the globs added
/// into a set. Claimed: it succeeds exactly when `glob_set_build_error` is
/// `None` for the builder's patterns, always when there are none, the set is
/// built from the builder's globs, and the error is the one named.
#[verifier::external_body]
fn glob_set_build(builder: &globset::GlobSetBuilder) -> (r: Result<globset::GlobSet, globset::Error>)
    ensures
        r is Ok == (glob_set_build_error(builder_globs(*builder)) is None),
        r matches Err(e) ==> glob_set_build_error(builder_globs(*builder)) == Some(error_text(e)),
        builder_globs(*builder).len() == 0 ==> r is Ok,
        r matches Ok(set) ==> set_globs(set) == builder_globs(*builder),
{
    builder.build()
}

/// Some pattern of `patterns` matches `path`.
pub open spec fn patterns_match(patterns: Seq<Seq<char>>, path: Seq<char>) -> bool {
    exists|i: int| 0 <= i < patterns.len() && glob_matches(#[trigger] patterns[i], path)
}

/// Calls `globset::GlobSet::is_match`. Claimed, as its documentation says:
/// it answers whether any glob of the set matches `path` (so an empty set
/// matches nothing).
#[verifier::external_body]
fn glob_set_is_match(set: &globset::GlobSet, path: &str) -> (r: bool)
    ensures
        r == (exists|i: int|
            0 <= i < set_globs(*set).len() && glob_matches(#[trigger] set_globs(*set)[i], path@)),
{
    set.is_match(path)
}

/// Calls `Display` of `globset::Error`. Claimed: it writes the error's
/// message, `error_text`.
#[verifier::external_body]
fn glob_error_text(err: &globset::Error) -> (r: String)
    ensures
        r@ == error_text(*err),
{
    err.to_string()
}

/// Every pattern parses, and globset builds a set of them.
pub open spec fn globs_ok(patterns: Seq<Seq<char>>) -> bool {
    &&& forall|i: int| 0 <= i < patterns.len() ==> glob_parses(#[trigger] patterns[i])
    &&& glob_set_builds(patterns)
}

/// The message of the first pattern (in order) that does not parse, if any.
pub open spec fn first_parse_error(patterns: Seq<Seq<char>>) -> Option<Seq<char>>
    decreases patterns.len(),
{
    if patterns.len() == 0 {
        None
    } else if glob_parse_error(patterns[0]) is Some {
        glob_parse_error(patterns[0])
    } else {
        first_parse_error(patterns.drop_first())
    }
}

/// The message a glob set of these patterns fails with: that of the first
/// pattern that does not parse, else that of building the set; `None` when
/// the set is built.
pub open spec fn glob_set_error(patterns: Seq<Seq<char>>) -> Option<Seq<char>> {
    match first_parse_error(patterns) {
        Some(m) => Some(m),
        None => glob_set_build_error(patterns),
    }
}

/// No pattern fails to parse exactly when every pattern parses.
pub proof fn lemma_first_parse_error(patterns: Seq<Seq<char>>)
    ensures
        first_parse_error(patterns) is None <==> forall|i: int|
            0 <= i < patterns.len() ==> glob_parses(#[trigger] patterns[i]),
    decreases patterns.len(),
{
    if patterns.len() > 0 {
        let rest = patterns.drop_first();
        lemma_first_parse_error(rest);
        if first_parse_error(patterns) is None {
            assert forall|i: int| 0 <= i < patterns.len() implies glob_parses(#[trigger] patterns[i]) by {
                if i > 0 {
                    assert(patterns[i] == rest[i - 1]);
                }
            }
        }
        if forall|i: int| 0 <= i < patterns.len() ==> glob_parses(#[trigger] patterns[i]) {
            assert(glob_parses(patterns[0]));
            assert forall|i: int| 0 <= i < rest.len() implies glob_parses(#[trigger] rest[i]) by {
                assert(rest[i] == patterns[i + 1]);
            }
        }
    }
}

/// A set of these patterns fails exactly when they are not all fine.
pub proof fn lemma_glob_set_error(patterns: Seq<Seq<char>>)
    ensures
        glob_set_error(patterns) is None <==> globs_ok(patterns),
{
    lemma_first_parse_error(patterns);
}

/// Builds the glob set of the patterns `globs`: it succeeds exactly when
/// every pattern parses and globset builds the set, and the set is made of
/// those patterns, in order. It fails with globset's message: that of the
/// first pattern that does not parse, else that of building the set.
pub fn get_glob_set(globs: &[&str]) -> (r: Result<globset::GlobSet, LibError>)
    ensures
        r is Ok <==> globs_ok(strs_view(globs@)),
        r matches Ok(set) ==> set_globs(set) == strs_view(globs@),
        r is Err ==> (r matches Err(LibError::Glob(m)) && glob_set_error(strs_view(globs@)) == Some(m@)),
{
    proof {
        lemma_glob_set_error(strs_view(globs@));
    }
    let ghost pats = strs_view(globs@);
    let mut builder = glob_set_builder();
    let mut i: usize = 0;
    assert(pats.skip(0) =~= pats);
    while i < globs.len()
        invariant
            i <= globs@.len(),
            pats == strs_view(globs@),
            pats.len() == globs@.len(),
            forall|j: int| 0 <= j < i ==> glob_parses(#[trigger] pats[j]),
            builder_globs(builder) == pats.take(i as int),
            first_parse_error(pats) == first_parse_error(pats.skip(i as int)),
        decreases globs@.len() - i,
    {
        assert(pats[i as int] == globs@[i as int]@);
        assert(pats.skip(i as int)[0] == pats[i as int]);
        assert(pats.skip(i as int).drop_first() =~= pats.skip(i + 1));
        match glob_new(globs[i]) {
            Ok(glob) => {
                builder = glob_set_builder_add(builder, glob);
                assert(pats.take(i + 1) =~= pats.take(i as int).push(pats[i as int]));
            },
            Err(e) => {
                assert(!globs_ok(pats));
                return Err(LibError::Glob(glob_error_text(&e)));
            },
        }
        i = i + 1;
    }
    assert(pats.take(i as int) =~= pats);
    assert(pats.skip(i as int).len() == 0);
    match glob_set_build(&builder) {
        Ok(set) => Ok(set),
        Err(e) => Err(LibError::Glob(glob_error_text(&e))),
    }
}

/// The patterns of the directories never walked into: `.git` and `target`.
pub open spec fn base_dir_patterns() -> Seq<Seq<char>> {
    seq![".git"@, "target"@]
}

/// The globs of the directories never walked into.
fn base_dir_exclude_globs() -> (r: Result<globset::GlobSet, LibError>)
    ensures
        r is Ok <==> globs_ok(base_dir_patterns()),
        r matches Ok(set) ==> set_globs(set) == base_dir_patterns(),
        r is Err ==> (r matches Err(LibError::Glob(m)) && glob_set_error(base_dir_patterns())
            == Some(m@)),
{
    let globs: [&str; 2] = [".git", "target"];
    let slice = globs.as_slice();
    assert(strs_view(slice@) =~= base_dir_patterns()) by {
        assert(slice@[0]@ == ".git"@);
        assert(slice@[1]@ == "target"@);
    }
    get_glob_set(slice)
}

/// `s` holds `**`.
pub open spec fn has_double_star(s: Seq<char>) -> bool {
    exists|i: int| 0 <= i < s.len() - 1 && #[trigger] s[i] == '*' && s[i + 1] == '*'
}

/// Whether `s` holds `**`.
fn contains_double_star(s: &str) -> (r: bool)
    ensures
        r == has_double_star(s@),
{
    let n = s.unicode_len();
    if n < 2 {
        return false;
    }
    let mut i: usize = 0;
    while i < n - 1
        invariant
            n == s@.len(),
            n >= 2,
            i <= n - 1,
            forall|j: int| 0 <= j < i && j < n - 1 ==> !(#[trigger] s@[j] == '*' && s@[j + 1] == '*'),
        decreases n - i,
    {
        if s.get_char(i) == '*' && s.get_char(i + 1) == '*' {
            return true;
        }
        i = i + 1;
    }
    false
}

/// The texts of a sequence of string slices.
pub open spec fn strs_view(s: Seq<&str>) -> Seq<Seq<char>> {
    s.map_values(|x: &str| x@)
}

/// One of the patterns holds `**`.
pub open spec fn any_double_star(globs: Seq<Seq<char>>) -> bool {
    exists|i: int| 0 <= i < globs.len() && has_double_star(#[trigger] globs[i])
}

/// How deep a listing walks: through all levels (100) when one of the
/// include globs holds `**`, else only the directory itself (1).
pub open spec fn spec_walk_depth(include_globs: Option<Seq<Seq<char>>>) -> usize {
    match include_globs {
        Some(globs) => if any_double_star(globs) {
            100
        } else {
            1
        },
        None => 1,
    }
}

/// How deep a listing walks: through all levels as soon as one include
/// pattern holds two `*` in a row anywhere, its last two characters
/// included (`docs/**`, `**`); one level when no pattern does, or when
/// there are no include patterns.
pub proof fn lemma_walk_depth(globs: Seq<Seq<char>>, k: int, i: int)
    ensures
        spec_walk_depth(None) == 1,
        0 <= k < globs.len() && 0 <= i && i + 1 < globs[k].len() && globs[k][i] == '*'
            && globs[k][i + 1] == '*' ==> spec_walk_depth(Some(globs)) == 100,
        (forall|a: int, b: int|
            0 <= a < globs.len() && 0 <= b && b + 1 < globs[a].len() ==> !(#[trigger] globs[a][b]
                == '*' && globs[a][b + 1] == '*')) ==> spec_walk_depth(Some(globs)) == 1,
{
    if 0 <= k < globs.len() && 0 <= i && i + 1 < globs[k].len() && globs[k][i] == '*' && globs[k][i
        + 1] == '*' {
        assert(has_double_star(globs[k]));
        assert(any_double_star(globs));
    }
    if forall|a: int, b: int|
        0 <= a < globs.len() && 0 <= b && b + 1 < globs[a].len() ==> !(#[trigger] globs[a][b] == '*'
            && globs[a][b + 1] == '*') {
        if any_double_star(globs) {
            let a = choose|a: int| 0 <= a < globs.len() && has_double_star(#[trigger] globs[a]);
            let b = choose|b: int| 0 <= b < globs[a].len() - 1 && #[trigger] globs[a][b] == '*' && globs[a][b + 1] == '*';
            assert(false);
        }
    }
}

/// How deep a listing with these include globs walks.
pub fn walk_depth(include_globs: Option<&[&str]>) -> (r: usize)
    ensures
        r == spec_walk_depth(
            match include_globs {
                Some(g) => Some(strs_view(g@)),
                None => None,
            },
        ),
{
    match include_globs {
        Some(globs) => {
            let mut i: usize = 0;
            while i < globs.len()
                invariant
                    i <= globs@.len(),
                    include_globs == Some(globs),
                    forall|j: int| 0 <= j < i ==> !has_double_star(#[trigger] strs_view(globs@)[j]),
                decreases globs@.len() - i,
            {
                if contains_double_star(globs[i]) {
                    assert(has_double_star(globs@[i as int]@));
                    assert(strs_view(globs@)[i as int] == globs@[i as int]@);
                    assert(any_double_star(strs_view(globs@)));
                    return 100;
                }
                i = i + 1;
            }
            1
        },
        None => 1,
    }
}

/// Whether a walked entry is kept: a directory unless it is excluded by
/// the base globs (`.git`, `target`); a file unless an exclude glob matches
/// it, and then only if an include glob matches it, when there are include
/// globs. `excluded` and `included` are the answers of the exclude and
/// include sets, `None` where there is no such set.
pub open spec fn spec_keep_entry(
    is_dir: bool,
    dir_excluded: bool,
    excluded: Option<bool>,
    included: Option<bool>,
) -> bool {
    if is_dir {
        !dir_excluded
    } else if excluded == Some(true) {
        false
    } else {
        match included {
            Some(m) => m,
            None => true,
        }
    }
}

/// Whether a walked entry is kept, from the answers of the glob sets.
pub fn keep_entry(is_dir: bool, dir_excluded: bool, excluded: Option<bool>, included: Option<bool>) -> (r: bool)
    ensures
        r == spec_keep_entry(is_dir, dir_excluded, excluded, included),
{
    if is_dir {
        !dir_excluded
    } else {
        if let Some(true) = excluded {
            return false;
        }
        match included {
            Some(m) => m,
            None => true,
        }
    }
}

/// The glob sets that filter a listing of files.
pub struct WalkFilter {
    base_dir_exclude: globset::GlobSet,
    include_globs: Option<globset::GlobSet>,
    exclude_globs: Option<globset::GlobSet>,
}

/// The texts of an optional slice of patterns.
pub open spec fn opt_strs_view(globs: Option<&[&str]>) -> Option<Seq<Seq<char>>> {
    match globs {
        Some(g) => Some(strs_view(g@)),
        None => None,
    }
}

/// The patterns, where there are some, make a glob set.
pub open spec fn opt_globs_ok(patterns: Option<Seq<Seq<char>>>) -> bool {
    match patterns {
        Some(p) => globs_ok(p),
        None => true,
    }
}

/// Whether the patterns, where there are some, match `path`.
pub open spec fn opt_patterns_match(patterns: Option<Seq<Seq<char>>>, path: Seq<char>) -> Option<
    bool,
> {
    match patterns {
        Some(p) => Some(patterns_match(p, path)),
        None => None,
    }
}

/// The message a glob set of the patterns, where there are some, fails with.
pub open spec fn opt_glob_set_error(patterns: Option<Seq<Seq<char>>>) -> Option<Seq<char>> {
    match patterns {
        Some(p) => glob_set_error(p),
        None => None,
    }
}

/// The message the filter of a listing fails with: that of the base set,
/// else of the include set, else of the exclude set; `None` when all build.
pub open spec fn filter_error(
    included: Option<Seq<Seq<char>>>,
    excluded: Option<Seq<Seq<char>>>,
) -> Option<Seq<char>> {
    match glob_set_error(base_dir_patterns()) {
        Some(m) => Some(m),
        None => match opt_glob_set_error(included) {
            Some(m) => Some(m),
            None => opt_glob_set_error(excluded),
        },
    }
}

/// Builds the filter of a listing and finds how deep it walks: the first
/// half of listing files. It succeeds exactly when the base patterns (`.git`,
/// `target`) and the include and exclude patterns given each make a glob set,
/// and the filter's sets are made of those patterns.
pub fn list_files_filter(include_globs: Option<&[&str]>, exclude_globs: Option<&[&str]>) -> (r: Result<
    (usize, WalkFilter),
    LibError,
>)
    ensures
        r is Ok <==> {
            &&& globs_ok(base_dir_patterns())
            &&& opt_globs_ok(opt_strs_view(include_globs))
            &&& opt_globs_ok(opt_strs_view(exclude_globs))
        },
        r matches Ok((depth, f)) ==> {
            &&& depth == spec_walk_depth(opt_strs_view(include_globs))
            &&& f.base_patterns() == base_dir_patterns()
            &&& f.include_patterns() == opt_strs_view(include_globs)
            &&& f.exclude_patterns() == opt_strs_view(exclude_globs)
        },
        r is Err ==> (r matches Err(LibError::Glob(m)) && filter_error(
            opt_strs_view(include_globs),
            opt_strs_view(exclude_globs),
        ) == Some(m@)),
{
    proof {
        lemma_glob_set_error(base_dir_patterns());
        if let Some(g) = include_globs {
            lemma_glob_set_error(strs_view(g@));
        }
        if let Some(g) = exclude_globs {
            lemma_glob_set_error(strs_view(g@));
        }
    }
    let base_dir_exclude = match base_dir_exclude_globs() {
        Ok(set) => set,
        Err(e) => return Err(e),
    };
    let depth = walk_depth(include_globs);
    let include_set = match include_globs {
        Some(globs) => match get_glob_set(globs) {
            Ok(set) => Some(set),
            Err(e) => return Err(e),
        },
        None => None,
    };
    let exclude_set = match exclude_globs {
        Some(globs) => match get_glob_set(globs) {
            Ok(set) => Some(set),
            Err(e) => return Err(e),
        },
        None => None,
    };
    Ok((depth, WalkFilter { base_dir_exclude, include_globs: include_set, exclude_globs: exclude_set }))
}

impl WalkFilter {
    /// The patterns of the directories that are not walked into.
    pub closed spec fn base_patterns(&self) -> Seq<Seq<char>> {
        set_globs(self.base_dir_exclude)
    }

    /// The include patterns, if there are some.
    pub closed spec fn include_patterns(&self) -> Option<Seq<Seq<char>>> {
        match self.include_globs {
            Some(set) => Some(set_globs(set)),
            None => None,
        }
    }

    /// The exclude patterns, if there are some.
    pub closed spec fn exclude_patterns(&self) -> Option<Seq<Seq<char>>> {
        match self.exclude_globs {
            Some(set) => Some(set_globs(set)),
            None => None,
        }
    }

    /// Whether the entry at `path` (a directory when `is_dir`) is kept by the
    /// walk: a directory unless a base pattern matches it; a file unless an
    /// exclude pattern matches it, and then only if an include pattern
    /// matches it, when there are include patterns.
    pub fn keep(&self, is_dir: bool, path: &str) -> (r: bool)
        ensures
            r == spec_keep_entry(
                is_dir,
                patterns_match(self.base_patterns(), path@),
                opt_patterns_match(self.exclude_patterns(), path@),
                opt_patterns_match(self.include_patterns(), path@),
            ),
    {
        if is_dir {
            let dir_excluded = glob_set_is_match(&self.base_dir_exclude, path);
            keep_entry(true, dir_excluded, None, None)
        } else {
            let excluded = match &self.exclude_globs {
                Some(set) => Some(glob_set_is_match(set, path)),
                None => None,
            };
            let included = if let Some(true) = excluded {
                None
            } else {
                match &self.include_globs {
                    Some(set) => Some(glob_set_is_match(set, path)),
                    None => None,
                }
            };
            keep_entry(false, false, excluded, included)
        }
    }
}

// endregion: --- Globs

} // verus!
