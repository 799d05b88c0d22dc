//! Mapping source files to module paths, and resolving declared child
//! modules to the files that back them.
//!
//! A file-system collaborator lists the `.rs` files under the package's
//! source directory; everything here is pure logic over those path
//! strings. Paths use `/` as their separator.

use vstd::prelude::*;
use vstd::string::*;

use crate::paths::lemma_deep_push;
use crate::paths::ModulePath;
use crate::paths::str_eq_str;
use crate::similarity::chars_of;
use crate::text::starts_with_chars;

verus! {

/// The first index of `c` in `s`, or -1 when `c` does not occur.
pub open spec fn find_char(s: Seq<char>, c: char) -> int
    decreases s.len(),
{
    if s.len() == 0 {
        -1
    } else if s[0] == c {
        0
    } else {
        let r = find_char(s.drop_first(), c);
        if r < 0 {
            -1
        } else {
            r + 1
        }
    }
}

/// `s` split on `c`: the components between occurrences, in order. An
/// empty string has one empty component.
pub open spec fn split_on(s: Seq<char>, c: char) -> Seq<Seq<char>>
    decreases s.len(),
{
    let i = find_char(s, c);
    if i < 0 || i >= s.len() {
        seq![s]
    } else {
        seq![s.take(i)] + split_on(s.skip(i + 1), c)
    }
}

/// `find_char` returns the index of the first occurrence.
pub proof fn lemma_find_char(s: Seq<char>, c: char, j: int)
    requires
        0 <= j <= s.len(),
        forall|k: int| 0 <= k < j ==> s[k] != c,
        j == s.len() || s[j] == c,
    ensures
        find_char(s, c) == if j == s.len() {
            -1int
        } else {
            j
        },
    decreases j,
{
    if s.len() == 0 {
    } else if j == 0 {
    } else {
        lemma_find_char(s.drop_first(), c, j - 1);
    }
}

/// `base` with each of `segs` appended behind a separator.
pub open spec fn dir_join(base: Seq<char>, segs: Seq<Seq<char>>) -> Seq<char>
    decreases segs.len(),
{
    if segs.len() == 0 {
        base
    } else {
        dir_join(base, segs.drop_last()) + "/"@ + segs.last()
    }
}

/// The segments of `parent` below the root sentinel.
pub open spec fn below_root(parent: Seq<Seq<char>>) -> Seq<Seq<char>> {
    if parent.len() >= 1 {
        parent.drop_first()
    } else {
        parent
    }
}

/// The sibling-file candidate for a declared child module: the parent
/// module's directory, then `name.rs`.
pub open spec fn direct_candidate(
    src_dir: Seq<char>,
    parent: Seq<Seq<char>>,
    name: Seq<char>,
) -> Seq<char> {
    dir_join(src_dir, below_root(parent)) + "/"@ + name + ".rs"@
}

/// The directory-style candidate: the parent module's directory, then
/// `name/mod.rs`.
pub open spec fn mod_style_candidate(
    src_dir: Seq<char>,
    parent: Seq<Seq<char>>,
    name: Seq<char>,
) -> Seq<char> {
    dir_join(src_dir, below_root(parent)) + "/"@ + name + "/mod.rs"@
}

/// Which file, of the ones that exist, backs a declared child module:
/// the sibling layout first, then the directory layout.
pub open spec fn spec_resolve_mod_file(
    src_dir: Seq<char>,
    parent: Seq<Seq<char>>,
    name: Seq<char>,
    existing: Seq<Seq<char>>,
) -> Option<Seq<char>> {
    if existing.contains(direct_candidate(src_dir, parent, name)) {
        Option::Some(direct_candidate(src_dir, parent, name))
    } else if existing.contains(mod_style_candidate(src_dir, parent, name)) {
        Option::Some(mod_style_candidate(src_dir, parent, name))
    } else {
        Option::None
    }
}

/// Join `base` and the given segments with separators.
fn dir_join_exec(base: &str, segs: &Vec<String>, from: usize) -> (r: String)
    requires
        from <= segs@.len(),
    ensures
        r@ == dir_join(base@, segs.deep_view().skip(from as int)),
{
    let mut out = base.to_owned();
    let mut i: usize = from;
    while i < segs.len()
        invariant
            from <= i <= segs@.len(),
            out@ == dir_join(base@, segs.deep_view().skip(from as int).take(i - from)),
        decreases segs@.len() - i,
    {
        out.append("/");
        out.append(segs[i].as_str());
        proof {
            let whole = segs.deep_view().skip(from as int);
            let t1 = whole.take(i + 1 - from);
            assert(t1.drop_last() =~= whole.take(i - from));
            assert(t1.last() == segs.deep_view()[i as int]);
            assert(segs.deep_view()[i as int] == segs@[i as int]@);
        }
        i += 1;
    }
    proof {
        let whole = segs.deep_view().skip(from as int);
        assert(whole.take(whole.len() as int) =~= whole);
    }
    out
}

/// Whether some string of `v` has exactly the characters of `s`.
pub fn contains_string(v: &Vec<String>, s: &String) -> (r: bool)
    ensures
        r == v.deep_view().contains(s@),
{
    let mut i: usize = 0;
    while i < v.len()
        invariant
            i <= v@.len(),
            forall|j: int| 0 <= j < i ==> v.deep_view()[j] != s@,
        decreases v@.len() - i,
    {
        if crate::paths::str_eq(&v[i], s) {
            proof {
                assert(v.deep_view()[i as int] == s@);
            }
            return true;
        }
        proof {
            assert(v.deep_view()[i as int] == v@[i as int]@);
        }
        i += 1;
    }
    proof {
        if v.deep_view().contains(s@) {
            let j = choose|j: int| 0 <= j < v.deep_view().len() && v.deep_view()[j] == s@;
            assert(v.deep_view()[j] != s@);
        }
    }
    false
}

/// Resolve a declared child module `mod_name` of `parent_module` to the
/// file that backs it, given which files exist under `src_dir`: the
/// sibling layout `name.rs` wins over the directory layout `name/mod.rs`;
/// `None` when neither file exists.
pub fn resolve_mod_file(
    src_dir: &str,
    parent_module: &ModulePath,
    mod_name: &str,
    existing_files: &Vec<String>,
) -> (r: Option<String>)
    ensures
        match r {
            Option::Some(p) => spec_resolve_mod_file(
                src_dir@,
                parent_module@,
                mod_name@,
                existing_files.deep_view(),
            ) == Option::Some(p@),
            Option::None => spec_resolve_mod_file(
                src_dir@,
                parent_module@,
                mod_name@,
                existing_files.deep_view(),
            ) is None,
        },
{
    let dir = dir_join_exec(src_dir, &parent_module.segments, if parent_module.segments.len() >= 1 {
        1
    } else {
        0
    });
    proof {
        if parent_module.segments.len() >= 1 {
            assert(parent_module.segments.deep_view().skip(1) =~= below_root(parent_module@));
        } else {
            assert(parent_module.segments.deep_view().skip(0) =~= below_root(parent_module@));
        }
    }
    let mut direct = dir.clone();
    direct.append("/");
    direct.append(mod_name);
    direct.append(".rs");
    proof {
        assert(direct@ =~= direct_candidate(src_dir@, parent_module@, mod_name@));
    }
    if contains_string(existing_files, &direct) {
        return Option::Some(direct);
    }
    let mut mod_style = dir;
    mod_style.append("/");
    mod_style.append(mod_name);
    mod_style.append("/mod.rs");
    proof {
        assert(mod_style@ =~= mod_style_candidate(src_dir@, parent_module@, mod_name@));
    }
    if contains_string(existing_files, &mod_style) {
        return Option::Some(mod_style);
    }
    Option::None
}

/// The module path that a source file under `src_dir` maps to: its
/// directory components become segments under the root sentinel, and the
/// file's stem becomes the last segment, except that a `mod.rs` file
/// names the directory's own module. `None` for a file outside `src_dir`
/// or without the `.rs` ending.
pub open spec fn spec_file_to_module(src_dir: Seq<char>, file: Seq<char>) -> Option<
    Seq<Seq<char>>,
> {
    let prefix = src_dir + "/"@;
    if !starts_with_chars(file, prefix) {
        Option::None
    } else {
        let rel = file.skip(prefix.len() as int);
        let comps = split_on(rel, '/');
        let last = comps.last();
        if last.len() < 3 || last.skip(last.len() - 3) != ".rs"@ {
            Option::None
        } else {
            let stem = last.take(last.len() - 3);
            let dirs = seq!["crate"@] + comps.drop_last();
            if stem == "mod"@ {
                Option::Some(dirs)
            } else {
                Option::Some(dirs.push(stem))
            }
        }
    }
}

/// Split `s` on `/`.
fn split_slash(s: &str) -> (r: Vec<String>)
    ensures
        r.deep_view() == split_on(s@, '/'),
{
    let cs = chars_of(s);
    let n = cs.len();
    let mut r: Vec<String> = Vec::new();
    let mut start: usize = 0;
    let mut i: usize = 0;
    proof {
        assert(s@.skip(0) =~= s@);
        assert(r.deep_view() + split_on(s@, '/') =~= split_on(s@, '/'));
    }
    while i < n
        invariant
            start <= i <= n,
            n == s@.len(),
            cs@ == s@,
            split_on(s@, '/') =~= r.deep_view() + split_on(s@.skip(start as int), '/'),
            forall|k: int| start <= k < i ==> s@[k] != '/',
        decreases n - i,
    {
        if cs[i] == '/' {
            let comp = s.substring_char(start, i).to_owned();
            let ghost r0 = r;
            r.push(comp);
            proof {
                lemma_deep_push(r0, r);
                let rem = s@.skip(start as int);
                assert forall|k: int| 0 <= k < i - start implies rem[k] != '/' by {
                    assert(rem[k] == s@[start + k]);
                }
                assert(rem[i - start] == '/');
                lemma_find_char(rem, '/', i - start);
                assert(rem.take(i - start) =~= s@.subrange(start as int, i as int));
                assert(rem.skip(i - start + 1) =~= s@.skip(i + 1));
                assert(split_on(s@, '/') =~= r.deep_view() + split_on(s@.skip(i + 1), '/'));
            }
            start = i + 1;
        }
        i += 1;
    }
    let tail = s.substring_char(start, n).to_owned();
    let ghost r0 = r;
    r.push(tail);
    proof {
        lemma_deep_push(r0, r);
        let rem = s@.skip(start as int);
        assert forall|k: int| 0 <= k < rem.len() implies rem[k] != '/' by {
            assert(rem[k] == s@[start + k]);
        }
        lemma_find_char(rem, '/', rem.len() as int);
        assert(rem =~= s@.subrange(start as int, n as int));
        assert(split_on(s@, '/') =~= r.deep_view());
    }
    r
}

/// Map one file path under `src_dir` to its module path.
pub fn file_to_module_path(src_dir: &str, file: &str) -> (r: Option<ModulePath>)
    ensures
        match r {
            Option::Some(p) => spec_file_to_module(src_dir@, file@) == Option::Some(p@),
            Option::None => spec_file_to_module(src_dir@, file@) is None,
        },
{
    let mut prefix = src_dir.to_owned();
    prefix.append("/");
    let fchars = chars_of(file);
    let pchars = chars_of(prefix.as_str());
    if pchars.len() > fchars.len() {
        proof {
            assert(!starts_with_chars(file@, src_dir@ + "/"@));
        }
        return Option::None;
    }
    let mut k: usize = 0;
    while k < pchars.len()
        invariant
            k <= pchars@.len(),
            pchars@.len() <= fchars@.len(),
            pchars@ == src_dir@ + "/"@,
            fchars@ == file@,
            forall|j: int| 0 <= j < k ==> fchars@[j] == pchars@[j],
        decreases pchars@.len() - k,
    {
        if fchars[k] != pchars[k] {
            proof {
                assert(file@.take(pchars@.len() as int)[k as int] == file@[k as int]);
                assert(!starts_with_chars(file@, src_dir@ + "/"@));
            }
            return Option::None;
        }
        k += 1;
    }
    proof {
        assert(file@.take(pchars@.len() as int) =~= pchars@);
        assert(starts_with_chars(file@, src_dir@ + "/"@));
    }
    let rel = file.substring_char(prefix.as_str().unicode_len(), file.unicode_len());
    proof {
        assert(rel@ =~= file@.skip((src_dir@ + "/"@).len() as int));
    }
    let comps = split_slash(rel);
    proof {
        assert(comps.deep_view().len() > 0) by {
            let i = find_char(rel@, '/');
            if i < 0 {
            } else {
            }
        }
    }
    let last = &comps[comps.len() - 1];
    let last_chars = chars_of(last.as_str());
    proof {
        assert(last@ == comps.deep_view().last());
    }
    if last_chars.len() < 3 {
        return Option::None;
    }
    let suffix = last.substring_char(last_chars.len() - 3, last_chars.len());
    if !crate::paths::str_eq_str(&suffix.to_owned(), ".rs") {
        proof {
            assert(suffix@ =~= last@.skip(last@.len() - 3));
        }
        return Option::None;
    }
    proof {
        assert(suffix@ =~= last@.skip(last@.len() - 3));
    }
    let stem = last.substring_char(0, last_chars.len() - 3);
    proof {
        assert(stem@ =~= last@.take(last@.len() - 3));
    }
    let mut segments: Vec<String> = Vec::new();
    segments.push("crate".to_owned());
    let mut i: usize = 0;
    while i < comps.len() - 1
        invariant
            comps@.len() >= 1,
            i <= comps@.len() - 1,
            segments.deep_view() =~= seq!["crate"@] + comps.deep_view().drop_last().take(i as int),
        decreases comps@.len() - 1 - i,
    {
        let ghost s0 = segments;
        segments.push(comps[i].clone());
        proof {
            lemma_deep_push(s0, segments);
            let dl = comps.deep_view().drop_last();
            assert(dl.take(i + 1).drop_last() =~= dl.take(i as int));
            assert(dl.take(i + 1).last() == comps.deep_view()[i as int]);
            assert(segments.deep_view() =~= seq!["crate"@] + dl.take(i + 1));
        }
        i += 1;
    }
    proof {
        let dl = comps.deep_view().drop_last();
        assert(dl.take(dl.len() as int) =~= dl);
    }
    if !str_eq_str(&stem.to_owned(), "mod") {
        let ghost s0 = segments;
        segments.push(stem.to_owned());
        proof {
            lemma_deep_push(s0, segments);
            assert(segments.deep_view() =~= (seq!["crate"@] + comps.deep_view().drop_last()).push(
                stem@,
            ));
        }
    }
    Option::Some(ModulePath { segments })
}

/// The source files of a package, each under its module path, and the
/// package's root directory.
pub struct CrateFiles {
    pub files: Vec<(ModulePath, String)>,
    pub root: String,
}

impl CrateFiles {
    /// The entries, for contracts.
    pub open spec fn entries(&self) -> Seq<(Seq<Seq<char>>, Seq<char>)> {
        self.files.deep_view()
    }
}

/// What `discover_crate` maps the walked files to, in order: files that
/// are the package root itself or that no module path fits are left out.
pub open spec fn spec_discover_entries(src_dir: Seq<char>, walked: Seq<Seq<char>>) -> Seq<
    (Seq<Seq<char>>, Seq<char>),
>
    decreases walked.len(),
{
    if walked.len() == 0 {
        Seq::empty()
    } else {
        spec_discover_entries(src_dir, walked.drop_last()) + {
            let f = walked.last();
            if f == src_dir + "/lib.rs"@ || f == src_dir + "/main.rs"@ {
                Seq::empty()
            } else {
                match spec_file_to_module(src_dir, f) {
                    Option::Some(mp) => seq![(mp, f)],
                    Option::None => Seq::empty(),
                }
            }
        }
    }
}

/// Map every walked `.rs` file under `root/src` to its module path. The
/// package root module comes first, backed by `src/lib.rs` when that
/// file was walked, else by `src/main.rs`; with neither present the
/// package has no files. The walked files follow in their given order,
/// root files excluded.
pub fn discover_crate(root: &str, walked_files: &Vec<String>) -> (r: CrateFiles)
    ensures
        r.root@ == root@,
        ({
            let src_dir = root@ + "/src"@;
            let lib = src_dir + "/lib.rs"@;
            let main = src_dir + "/main.rs"@;
            if walked_files.deep_view().contains(lib) {
                r.entries() == seq![(seq!["crate"@], lib)] + spec_discover_entries(
                    src_dir,
                    walked_files.deep_view(),
                )
            } else if walked_files.deep_view().contains(main) {
                r.entries() == seq![(seq!["crate"@], main)] + spec_discover_entries(
                    src_dir,
                    walked_files.deep_view(),
                )
            } else {
                r.entries() == Seq::<(Seq<Seq<char>>, Seq<char>)>::empty()
            }
        }),
{
    let mut src_dir = root.to_owned();
    src_dir.append("/src");
    let mut lib = src_dir.clone();
    lib.append("/lib.rs");
    let mut main = src_dir.clone();
    main.append("/main.rs");

    let mut files: Vec<(ModulePath, String)> = Vec::new();

    let crate_root: String = if contains_string(walked_files, &lib) {
        lib.clone()
    } else if contains_string(walked_files, &main) {
        main.clone()
    } else {
        return CrateFiles { files, root: root.to_owned() };
    };

    let root_path = ModulePath::root();
    let ghost f0 = files;
    files.push((root_path, crate_root));
    proof {
        lemma_deep_push(f0, files);
    }

    let mut i: usize = 0;
    while i < walked_files.len()
        invariant
            i <= walked_files@.len(),
            src_dir@ == root@ + "/src"@,
            lib@ == src_dir@ + "/lib.rs"@,
            main@ == src_dir@ + "/main.rs"@,
            files.deep_view().len() >= 1,
            files.deep_view().skip(1) =~= spec_discover_entries(
                src_dir@,
                walked_files.deep_view().take(i as int),
            ),
            files.deep_view()[0] == files.deep_view().first(),
            files.deep_view().first() == (seq!["crate"@], if walked_files.deep_view().contains(
                lib@,
            ) {
                lib@
            } else {
                main@
            }),
        decreases walked_files@.len() - i,
    {
        proof {
            let w = walked_files.deep_view();
            assert(w.take(i + 1).drop_last() =~= w.take(i as int));
            assert(w.take(i + 1).last() == walked_files@[i as int]@);
        }
        let f = &walked_files[i];
        if !crate::paths::str_eq(f, &lib) && !crate::paths::str_eq(f, &main) {
            match file_to_module_path(src_dir.as_str(), f.as_str()) {
                Option::Some(mp) => {
                    let ghost fs0 = files;
                    files.push((mp, f.clone()));
                    proof {
                        lemma_deep_push(fs0, files);
                        assert(files.deep_view().skip(1) =~= spec_discover_entries(
                            src_dir@,
                            walked_files.deep_view().take(i + 1),
                        ));
                    }
                },
                Option::None => {},
            }
        }
        i += 1;
    }
    proof {
        let w = walked_files.deep_view();
        assert(w.take(w.len() as int) =~= w);
        assert(files.deep_view() =~= seq![files.deep_view().first()] + files.deep_view().skip(1));
    }
    CrateFiles { files, root: root.to_owned() }
}

} // verus!
