//! Dialect translation: the one mapping from an abstract build request to a
//! compiler-specific argument list, for the MSVC-style and POSIX-style
//! command lines, with the proof that each list carries its own dialect's
//! markers and never the other's.

use vstd::prelude::*;
use crate::strutil::starts_with_spec;
use crate::strutil::str_contains;
use crate::strutil::str_eq;
use crate::toolchain::CompilerType;

verus! {

/// An abstract compile request: one or more translation units and one
/// output artifact.
pub struct BuildRequest {
    /// The source files to compile.
    pub sources: Vec<String>,
    /// The output artifact path.
    pub output: String,
    /// The language-standard token.
    pub standard: String,
    /// Include directories.
    pub include_paths: Vec<String>,
    /// Extra compiler flags, dependency-supplied then manifest-supplied.
    pub cflags: Vec<String>,
    /// Bare library names from the manifest.
    pub libs: Vec<String>,
    /// Dependency link artifacts, passed through as full paths.
    pub dep_links: Vec<String>,
}

/// The views of a string vector.
pub open spec fn strs_view(v: Seq<String>) -> Seq<Seq<char>> {
    v.map(|i: int, s: String| s@)
}

/// Each element prefixed with `pre`.
pub open spec fn prefixed_views(pre: Seq<char>, v: Seq<String>) -> Seq<Seq<char>> {
    v.map(|i: int, s: String| pre + s@)
}

/// Each element suffixed with `suf`.
pub open spec fn suffixed_views(v: Seq<String>, suf: Seq<char>) -> Seq<Seq<char>> {
    v.map(|i: int, s: String| s@ + suf)
}

/// The MSVC-style argument list: banner suppression, exception model, the
/// sources, `/Fe` output, `/std:` standard, `/I` includes, the flags, the
/// `/link` marker, then dependency artifacts and `.lib` libraries.
pub open spec fn spec_msvc_args(req: &BuildRequest) -> Seq<Seq<char>> {
    seq!["/nologo"@, "/EHsc"@] + strs_view(req.sources@) + seq![
        "/Fe"@ + req.output@,
        "/std:"@ + req.standard@,
    ] + prefixed_views("/I"@, req.include_paths@) + strs_view(req.cflags@) + seq!["/link"@]
        + strs_view(req.dep_links@) + suffixed_views(req.libs@, ".lib"@)
}

/// The POSIX-style argument list: the sources, `-o` output, `-std=`
/// standard, `-I` includes, the flags, then dependency artifacts and `-l`
/// libraries.
pub open spec fn spec_posix_args(req: &BuildRequest) -> Seq<Seq<char>> {
    strs_view(req.sources@) + seq!["-o"@, req.output@, "-std="@ + req.standard@]
        + prefixed_views("-I"@, req.include_paths@) + strs_view(req.cflags@)
        + strs_view(req.dep_links@) + prefixed_views("-l"@, req.libs@)
}

/// The front ends that take the MSVC command-line dialect.
pub open spec fn spec_is_msvc_dialect(t: CompilerType) -> bool {
    t == CompilerType::MSVC || t == CompilerType::ClangCL
}

pub fn uses_msvc_dialect(t: CompilerType) -> (r: bool)
    ensures
        r == spec_is_msvc_dialect(t),
{
    match t {
        CompilerType::MSVC => true,
        CompilerType::ClangCL => true,
        _ => false,
    }
}

/// The PATH-fallback heuristic for an executable name: the vendor compiler
/// is `cl` or something ending in `cl.exe`.
pub fn compiler_command_is_msvc(compiler: &str) -> (r: bool)
    ensures
        r == (crate::strutil::contains_spec(compiler@, "cl.exe"@) || compiler@ == "cl"@),
{
    str_contains(compiler, "cl.exe") || str_eq(compiler, "cl")
}

proof fn lemma_strs_view_push(v: Seq<String>, x: String)
    ensures
        strs_view(v.push(x)) == strs_view(v).push(x@),
{
    assert(strs_view(v.push(x)) =~= strs_view(v).push(x@));
}

proof fn lemma_prefixed_push(pre: Seq<char>, v: Seq<String>, x: String)
    ensures
        prefixed_views(pre, v.push(x)) == prefixed_views(pre, v).push(pre + x@),
{
    assert(prefixed_views(pre, v.push(x)) =~= prefixed_views(pre, v).push(pre + x@));
}

proof fn lemma_suffixed_push(v: Seq<String>, x: String, suf: Seq<char>)
    ensures
        suffixed_views(v.push(x), suf) == suffixed_views(v, suf).push(x@ + suf),
{
    assert(suffixed_views(v.push(x), suf) =~= suffixed_views(v, suf).push(x@ + suf));
}

/// Append a copy of every element.
fn push_all(args: &mut Vec<String>, items: &Vec<String>)
    ensures
        strs_view(final(args)@) == strs_view(old(args)@) + strs_view(items@),
{
    let n = items.len();
    proof {
        assert(strs_view(items@.take(0)) =~= Seq::<Seq<char>>::empty());
        assert(strs_view(args@) =~= strs_view(old(args)@) + strs_view(items@.take(0)));
    }
    let mut i: usize = 0;
    while i < n
        invariant
            n == items@.len(),
            i <= n,
            strs_view(args@) == strs_view(old(args)@) + strs_view(items@.take(i as int)),
        decreases n - i,
    {
        let ghost pre_vec = args@;
        let cloned = items[i].clone();
        let ghost cv = cloned;
        args.push(cloned);
        proof {
            lemma_strs_view_push(pre_vec, cv);
            assert(items@.take(i as int + 1) =~= items@.take(i as int).push(items@[i as int]));
            lemma_strs_view_push(items@.take(i as int), items@[i as int]);
            assert(strs_view(args@) =~= strs_view(old(args)@) + strs_view(
                items@.take(i as int + 1),
            ));
        }
        i += 1;
    }
    proof {
        assert(items@.take(n as int) =~= items@);
    }
}

/// Append every element with `pre` in front.
fn push_all_prefixed(args: &mut Vec<String>, pre: &str, items: &Vec<String>)
    ensures
        strs_view(final(args)@) == strs_view(old(args)@) + prefixed_views(pre@, items@),
{
    let n = items.len();
    proof {
        assert(prefixed_views(pre@, items@.take(0)) =~= Seq::<Seq<char>>::empty());
        assert(strs_view(args@) =~= strs_view(old(args)@) + prefixed_views(pre@, items@.take(0)));
    }
    let mut i: usize = 0;
    while i < n
        invariant
            n == items@.len(),
            i <= n,
            strs_view(args@) == strs_view(old(args)@) + prefixed_views(
                pre@,
                items@.take(i as int),
            ),
        decreases n - i,
    {
        let ghost pre_vec = args@;
        let combined = String::from_str(pre).concat(items[i].as_str());
        let ghost cv = combined;
        args.push(combined);
        proof {
            lemma_strs_view_push(pre_vec, cv);
            assert(items@.take(i as int + 1) =~= items@.take(i as int).push(items@[i as int]));
            lemma_prefixed_push(pre@, items@.take(i as int), items@[i as int]);
            assert(strs_view(args@) =~= strs_view(old(args)@) + prefixed_views(
                pre@,
                items@.take(i as int + 1),
            ));
        }
        i += 1;
    }
    proof {
        assert(items@.take(n as int) =~= items@);
    }
}

/// Append every element with `suf` behind.
fn push_all_suffixed(args: &mut Vec<String>, items: &Vec<String>, suf: &str)
    ensures
        strs_view(final(args)@) == strs_view(old(args)@) + suffixed_views(items@, suf@),
{
    let n = items.len();
    proof {
        assert(suffixed_views(items@.take(0), suf@) =~= Seq::<Seq<char>>::empty());
        assert(strs_view(args@) =~= strs_view(old(args)@) + suffixed_views(items@.take(0), suf@));
    }
    let mut i: usize = 0;
    while i < n
        invariant
            n == items@.len(),
            i <= n,
            strs_view(args@) == strs_view(old(args)@) + suffixed_views(
                items@.take(i as int),
                suf@,
            ),
        decreases n - i,
    {
        let ghost pre_vec = args@;
        let combined = items[i].clone().concat(suf);
        let ghost cv = combined;
        args.push(combined);
        proof {
            lemma_strs_view_push(pre_vec, cv);
            assert(items@.take(i as int + 1) =~= items@.take(i as int).push(items@[i as int]));
            lemma_suffixed_push(items@.take(i as int), items@[i as int], suf@);
            assert(strs_view(args@) =~= strs_view(old(args)@) + suffixed_views(
                items@.take(i as int + 1),
                suf@,
            ));
        }
        i += 1;
    }
    proof {
        assert(items@.take(n as int) =~= items@);
    }
}

/// Translate a build request into the argument list of the given dialect.
/// Every compile and link invocation routes through this mapping.
pub fn build_args(msvc_dialect: bool, req: &BuildRequest) -> (r: Vec<String>)
    ensures
        msvc_dialect ==> strs_view(r@) == spec_msvc_args(req),
        !msvc_dialect ==> strs_view(r@) == spec_posix_args(req),
{
    let mut args: Vec<String> = Vec::new();
    if msvc_dialect {
        args.push(String::from_str("/nologo"));
        args.push(String::from_str("/EHsc"));
        proof {
            assert(strs_view(args@) =~= seq!["/nologo"@, "/EHsc"@]);
        }
        push_all(&mut args, &req.sources);
        let ghost with_sources = strs_view(args@);
        args.push(String::from_str("/Fe").concat(req.output.as_str()));
        args.push(String::from_str("/std:").concat(req.standard.as_str()));
        proof {
            assert(strs_view(args@) =~= with_sources + seq![
                "/Fe"@ + req.output@,
                "/std:"@ + req.standard@,
            ]);
        }
        push_all_prefixed(&mut args, "/I", &req.include_paths);
        push_all(&mut args, &req.cflags);
        let ghost before_link = strs_view(args@);
        args.push(String::from_str("/link"));
        proof {
            assert(strs_view(args@) =~= before_link + seq!["/link"@]);
        }
        push_all(&mut args, &req.dep_links);
        push_all_suffixed(&mut args, &req.libs, ".lib");
        proof {
            assert(strs_view(args@) =~= spec_msvc_args(req));
        }
    } else {
        push_all(&mut args, &req.sources);
        let ghost with_sources = strs_view(args@);
        args.push(String::from_str("-o"));
        args.push(req.output.clone());
        args.push(String::from_str("-std=").concat(req.standard.as_str()));
        proof {
            assert(strs_view(args@) =~= with_sources + seq![
                "-o"@,
                req.output@,
                "-std="@ + req.standard@,
            ]);
        }
        push_all_prefixed(&mut args, "-I", &req.include_paths);
        push_all(&mut args, &req.cflags);
        push_all(&mut args, &req.dep_links);
        push_all_prefixed(&mut args, "-l", &req.libs);
        proof {
            assert(strs_view(args@) =~= spec_posix_args(req));
        }
    }
    args
}

/// The MSVC-style compile-only list for one translation unit of a
/// multi-unit build: the same table conventions, with `/c` and an `/Fo`
/// object output in place of linking.
pub open spec fn spec_msvc_object_args(
    source: Seq<char>,
    object: Seq<char>,
    standard: Seq<char>,
    include_paths: Seq<String>,
    cflags: Seq<String>,
) -> Seq<Seq<char>> {
    seq!["/nologo"@, "/EHsc"@, "/c"@, source, "/Fo"@ + object, "/std:"@ + standard]
        + prefixed_views("/I"@, include_paths) + strs_view(cflags)
}

/// The POSIX-style compile-only list for one translation unit.
pub open spec fn spec_posix_object_args(
    source: Seq<char>,
    object: Seq<char>,
    standard: Seq<char>,
    include_paths: Seq<String>,
    cflags: Seq<String>,
) -> Seq<Seq<char>> {
    seq!["-c"@, source, "-o"@, object, "-std="@ + standard] + prefixed_views(
        "-I"@,
        include_paths,
    ) + strs_view(cflags)
}

/// Compile one translation unit to an object file, in the given dialect.
pub fn object_args(
    msvc_dialect: bool,
    source: &str,
    object: &str,
    standard: &str,
    include_paths: &Vec<String>,
    cflags: &Vec<String>,
) -> (r: Vec<String>)
    ensures
        msvc_dialect ==> strs_view(r@) == spec_msvc_object_args(
            source@,
            object@,
            standard@,
            include_paths@,
            cflags@,
        ),
        !msvc_dialect ==> strs_view(r@) == spec_posix_object_args(
            source@,
            object@,
            standard@,
            include_paths@,
            cflags@,
        ),
{
    let mut args: Vec<String> = Vec::new();
    if msvc_dialect {
        args.push(String::from_str("/nologo"));
        args.push(String::from_str("/EHsc"));
        args.push(String::from_str("/c"));
        args.push(String::from_str(source));
        args.push(String::from_str("/Fo").concat(object));
        args.push(String::from_str("/std:").concat(standard));
        proof {
            assert(strs_view(args@) =~= seq![
                "/nologo"@,
                "/EHsc"@,
                "/c"@,
                source@,
                "/Fo"@ + object@,
                "/std:"@ + standard@,
            ]);
        }
        push_all_prefixed(&mut args, "/I", include_paths);
        push_all(&mut args, cflags);
        proof {
            assert(strs_view(args@) =~= spec_msvc_object_args(
                source@,
                object@,
                standard@,
                include_paths@,
                cflags@,
            ));
        }
    } else {
        args.push(String::from_str("-c"));
        args.push(String::from_str(source));
        args.push(String::from_str("-o"));
        args.push(String::from_str(object));
        args.push(String::from_str("-std=").concat(standard));
        proof {
            assert(strs_view(args@) =~= seq![
                "-c"@,
                source@,
                "-o"@,
                object@,
                "-std="@ + standard@,
            ]);
        }
        push_all_prefixed(&mut args, "-I", include_paths);
        push_all(&mut args, cflags);
        proof {
            assert(strs_view(args@) =~= spec_posix_object_args(
                source@,
                object@,
                standard@,
                include_paths@,
                cflags@,
            ));
        }
    }
    args
}

/// The MSVC-style link list: the objects, the `/Fe` output, the `/link`
/// marker, then dependency artifacts and `.lib` libraries.
pub open spec fn spec_msvc_link_args(
    objects: Seq<String>,
    output: Seq<char>,
    dep_links: Seq<String>,
    libs: Seq<String>,
) -> Seq<Seq<char>> {
    seq!["/nologo"@] + strs_view(objects) + seq!["/Fe"@ + output, "/link"@] + strs_view(dep_links)
        + suffixed_views(libs, ".lib"@)
}

/// The POSIX-style link list.
pub open spec fn spec_posix_link_args(
    objects: Seq<String>,
    output: Seq<char>,
    dep_links: Seq<String>,
    libs: Seq<String>,
) -> Seq<Seq<char>> {
    strs_view(objects) + seq!["-o"@, output] + strs_view(dep_links) + prefixed_views("-l"@, libs)
}

/// Link the compiled objects into the final artifact, in the given dialect.
pub fn link_args(
    msvc_dialect: bool,
    objects: &Vec<String>,
    output: &str,
    dep_links: &Vec<String>,
    libs: &Vec<String>,
) -> (r: Vec<String>)
    ensures
        msvc_dialect ==> strs_view(r@) == spec_msvc_link_args(
            objects@,
            output@,
            dep_links@,
            libs@,
        ),
        !msvc_dialect ==> strs_view(r@) == spec_posix_link_args(
            objects@,
            output@,
            dep_links@,
            libs@,
        ),
{
    let mut args: Vec<String> = Vec::new();
    if msvc_dialect {
        args.push(String::from_str("/nologo"));
        proof {
            assert(strs_view(args@) =~= seq!["/nologo"@]);
        }
        push_all(&mut args, objects);
        let ghost with_objects = strs_view(args@);
        args.push(String::from_str("/Fe").concat(output));
        args.push(String::from_str("/link"));
        proof {
            assert(strs_view(args@) =~= with_objects + seq!["/Fe"@ + output@, "/link"@]);
        }
        push_all(&mut args, dep_links);
        push_all_suffixed(&mut args, libs, ".lib");
        proof {
            assert(strs_view(args@) =~= spec_msvc_link_args(objects@, output@, dep_links@, libs@));
        }
    } else {
        push_all(&mut args, objects);
        let ghost with_objects = strs_view(args@);
        args.push(String::from_str("-o"));
        args.push(String::from_str(output));
        proof {
            assert(strs_view(args@) =~= with_objects + seq!["-o"@, output@]);
        }
        push_all(&mut args, dep_links);
        push_all_prefixed(&mut args, "-l", libs);
        proof {
            assert(strs_view(args@) =~= spec_posix_link_args(objects@, output@, dep_links@, libs@));
        }
    }
    args
}

// ---------------------------------------------------------------------------
// Dialect correctness
// ---------------------------------------------------------------------------
/// A user-supplied token that carries no dialect marker of its own: it is not
/// the exception flag and opens neither dialect's standard switch.
pub open spec fn no_dialect_markers(s: Seq<char>) -> bool {
    !starts_with_spec(s, "-std="@) && !starts_with_spec(s, "/std:"@) && s != "/EHsc"@
}

/// The user-supplied parts of a request are free of dialect markers; a
/// library name must not open the POSIX standard switch once suffixed.
pub open spec fn req_flags_clean(req: &BuildRequest) -> bool {
    &&& forall|i: int|
        0 <= i < req.sources@.len() ==> no_dialect_markers((#[trigger] req.sources@[i])@)
    &&& no_dialect_markers(req.output@)
    &&& forall|i: int|
        0 <= i < req.cflags@.len() ==> no_dialect_markers((#[trigger] req.cflags@[i])@)
    &&& forall|i: int|
        0 <= i < req.dep_links@.len() ==> no_dialect_markers((#[trigger] req.dep_links@[i])@)
    &&& forall|i: int|
        0 <= i < req.libs@.len() ==> !starts_with_spec((#[trigger] req.libs@[i])@, "-std="@)
}

proof fn lemma_arg_literals()
    ensures
        "/nologo"@.len() == 7 && "/nologo"@[0] == '/',
        "/EHsc"@.len() == 5 && "/EHsc"@[0] == '/',
        "/Fe"@.len() == 3 && "/Fe"@[0] == '/',
        "/std:"@.len() == 5 && "/std:"@[0] == '/',
        "/I"@.len() == 2 && "/I"@[0] == '/',
        "/link"@.len() == 5 && "/link"@[0] == '/',
        "-o"@.len() == 2 && "-o"@[0] == '-',
        "-std="@.len() == 5 && "-std="@[0] == '-',
        "-std="@[1] == 's' && "-std="@[2] == 't' && "-std="@[3] == 'd' && "-std="@[4] == '=',
        "-I"@.len() == 2 && "-I"@[0] == '-',
        "-l"@.len() == 2 && "-l"@[0] == '-',
        ".lib"@.len() == 4 && ".lib"@[0] == '.',
{
    reveal_strlit("/nologo");
    reveal_strlit("/EHsc");
    reveal_strlit("/Fe");
    reveal_strlit("/std:");
    reveal_strlit("/I");
    reveal_strlit("/link");
    reveal_strlit("-o");
    reveal_strlit("-std=");
    reveal_strlit("-I");
    reveal_strlit("-l");
    reveal_strlit(".lib");
}

proof fn lemma_first_char_differs(s: Seq<char>, p: Seq<char>)
    requires
        s.len() > 0,
        p.len() > 0,
        s[0] != p[0],
    ensures
        !starts_with_spec(s, p),
        s != p,
{
    if starts_with_spec(s, p) {
        assert(s.take(p.len() as int)[0] == s[0]);
    }
    if s == p {
        assert(s[0] == p[0]);
    }
}

/// Suffixing `.lib` cannot create a `-std=` opening that the bare name did
/// not have.
proof fn lemma_lib_suffix_safe(l: Seq<char>)
    requires
        !starts_with_spec(l, "-std="@),
    ensures
        !starts_with_spec(l + ".lib"@, "-std="@),
{
    lemma_arg_literals();
    let s = l + ".lib"@;
    let p = "-std="@;
    if starts_with_spec(s, p) {
        assert(s.take(5) == p);
        if l.len() >= 5 {
            assert(l.take(5) =~= s.take(5));
        } else {
            let k = l.len() as int;
            assert(s[k] == ".lib"@[0]);
            assert(s.take(5)[k] == s[k]);
            assert(p[k] == '.');
            if k == 0 {
            } else if k == 1 {
            } else if k == 2 {
            } else if k == 3 {
            } else {
                assert(k == 4);
            }
        }
    }
}

/// Law: dialect correctness. The MSVC-style list carries `/EHsc` and a
/// `/std:`-opened token and never a `-std=`-opened token; the POSIX-style
/// list carries a `-std=`-opened token and never `/EHsc` nor a
/// `/std:`-opened token. Holds whenever the user-supplied tokens are free of
/// the other dialect's markers.
pub proof fn lemma_dialect_correctness(req: &BuildRequest)
    requires
        req_flags_clean(req),
    ensures
        spec_msvc_args(req).contains("/EHsc"@),
        exists|i: int|
            0 <= i < spec_msvc_args(req).len() && starts_with_spec(
                #[trigger] spec_msvc_args(req)[i],
                "/std:"@,
            ),
        forall|i: int|
            0 <= i < spec_msvc_args(req).len() ==> !starts_with_spec(
                #[trigger] spec_msvc_args(req)[i],
                "-std="@,
            ),
        exists|i: int|
            0 <= i < spec_posix_args(req).len() && starts_with_spec(
                #[trigger] spec_posix_args(req)[i],
                "-std="@,
            ),
        forall|i: int|
            0 <= i < spec_posix_args(req).len() ==> spec_posix_args(req)[i] != "/EHsc"@
                && !starts_with_spec(#[trigger] spec_posix_args(req)[i], "/std:"@),
{
    lemma_arg_literals();
    let m = spec_msvc_args(req);
    let ma = seq!["/nologo"@, "/EHsc"@];
    let ms = strs_view(req.sources@);
    let mo = seq!["/Fe"@ + req.output@, "/std:"@ + req.standard@];
    let mb = prefixed_views("/I"@, req.include_paths@);
    let mc = strs_view(req.cflags@);
    let md = seq!["/link"@];
    let me = strs_view(req.dep_links@);
    let mf = suffixed_views(req.libs@, ".lib"@);
    assert(m == ma + ms + mo + mb + mc + md + me + mf);
    let n1: int = 2 + ms.len() as int;
    let n2: int = n1 + 2;
    let n3: int = n2 + mb.len() as int;
    let n4: int = n3 + mc.len() as int;
    let n5: int = n4 + 1;
    let n6: int = n5 + me.len() as int;
    // presence of the exception flag and the standard switch
    assert(m[1] == "/EHsc"@);
    assert(m.contains("/EHsc"@));
    assert(m[n1 + 1int] == "/std:"@ + req.standard@);
    assert(("/std:"@ + req.standard@).take(5) =~= "/std:"@);
    assert(starts_with_spec(m[n1 + 1int], "/std:"@));
    // absence of the POSIX standard switch
    assert forall|i: int| 0 <= i < m.len() implies !starts_with_spec(
        #[trigger] m[i],
        "-std="@,
    ) by {
        if i < 2 {
            assert(m[i] == ma[i]);
            if i == 0 {
                lemma_first_char_differs("/nologo"@, "-std="@);
            } else {
                lemma_first_char_differs("/EHsc"@, "-std="@);
            }
        } else if i < n1 {
            let j = i - 2;
            assert(m[i] == ms[j]);
            assert(ms[j] == req.sources@[j]@);
        } else if i < n2 {
            let j = i - n1;
            assert(m[i] == mo[j]);
            if j == 0 {
                assert(("/Fe"@ + req.output@)[0] == '/');
                lemma_first_char_differs("/Fe"@ + req.output@, "-std="@);
            } else {
                assert(("/std:"@ + req.standard@)[0] == '/');
                lemma_first_char_differs("/std:"@ + req.standard@, "-std="@);
            }
        } else if i < n3 {
            let j = i - n2;
            assert(m[i] == mb[j]);
            assert(mb[j] == "/I"@ + req.include_paths@[j]@);
            assert(("/I"@ + req.include_paths@[j]@)[0] == '/');
            lemma_first_char_differs("/I"@ + req.include_paths@[j]@, "-std="@);
        } else if i < n4 {
            let j = i - n3;
            assert(m[i] == mc[j]);
            assert(mc[j] == req.cflags@[j]@);
        } else if i < n5 {
            assert(m[i] == "/link"@);
            lemma_first_char_differs("/link"@, "-std="@);
        } else if i < n6 {
            let j = i - n5;
            assert(m[i] == me[j]);
            assert(me[j] == req.dep_links@[j]@);
        } else {
            let j = i - n6;
            assert(m[i] == mf[j]);
            assert(mf[j] == req.libs@[j]@ + ".lib"@);
            lemma_lib_suffix_safe(req.libs@[j]@);
        }
    }
    let p = spec_posix_args(req);
    let ps = strs_view(req.sources@);
    let pa = seq!["-o"@, req.output@, "-std="@ + req.standard@];
    let pb = prefixed_views("-I"@, req.include_paths@);
    let pc = strs_view(req.cflags@);
    let pd = strs_view(req.dep_links@);
    let pe = prefixed_views("-l"@, req.libs@);
    assert(p == ps + pa + pb + pc + pd + pe);
    let k1: int = ps.len() as int + 3;
    let k2: int = k1 + pb.len() as int;
    let k3: int = k2 + pc.len() as int;
    let k4: int = k3 + pd.len() as int;
    // presence of the POSIX standard switch
    assert(p[ps.len() as int + 2] == "-std="@ + req.standard@);
    assert(("-std="@ + req.standard@).take(5) =~= "-std="@);
    assert(starts_with_spec(p[ps.len() as int + 2], "-std="@));
    // absence of the MSVC markers
    assert forall|i: int| 0 <= i < p.len() implies p[i] != "/EHsc"@ && !starts_with_spec(
        #[trigger] p[i],
        "/std:"@,
    ) by {
        if i < ps.len() as int {
            assert(p[i] == ps[i]);
            assert(ps[i] == req.sources@[i]@);
        } else if i < k1 {
            let j = i - ps.len() as int;
            assert(p[i] == pa[j]);
            if j == 0 {
                lemma_first_char_differs("-o"@, "/std:"@);
                lemma_first_char_differs("-o"@, "/EHsc"@);
            } else if j == 1 {
            } else {
                assert(("-std="@ + req.standard@)[0] == '-');
                lemma_first_char_differs("-std="@ + req.standard@, "/std:"@);
                lemma_first_char_differs("-std="@ + req.standard@, "/EHsc"@);
            }
        } else if i < k2 {
            let j = i - k1;
            assert(p[i] == pb[j]);
            assert(pb[j] == "-I"@ + req.include_paths@[j]@);
            assert(("-I"@ + req.include_paths@[j]@)[0] == '-');
            lemma_first_char_differs("-I"@ + req.include_paths@[j]@, "/std:"@);
            lemma_first_char_differs("-I"@ + req.include_paths@[j]@, "/EHsc"@);
        } else if i < k3 {
            let j = i - k2;
            assert(p[i] == pc[j]);
            assert(pc[j] == req.cflags@[j]@);
        } else if i < k4 {
            let j = i - k3;
            assert(p[i] == pd[j]);
            assert(pd[j] == req.dep_links@[j]@);
        } else {
            let j = i - k4;
            assert(p[i] == pe[j]);
            assert(pe[j] == "-l"@ + req.libs@[j]@);
            assert(("-l"@ + req.libs@[j]@)[0] == '-');
            lemma_first_char_differs("-l"@ + req.libs@[j]@, "/std:"@);
            lemma_first_char_differs("-l"@ + req.libs@[j]@, "/EHsc"@);
        }
    }
}

} // verus!
