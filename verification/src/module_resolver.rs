//! Module-reference resolution: builtin and external pass-through, extension
//! and `index` probing, `node_modules` lookup, and the specifier rewrite.

use crate::fsio::{manifest_field_of, manifest_string_field, path_exists, read_text};
use crate::pathops::{
    ends_with_str, ext_dot, ext_dot_index, lemma_parent_prefix, lemma_starts_with_trans,
    path_join, path_parent, path_starts_with, path_with_file_name, spec_ends_with,
    spec_extension, spec_forward_slashes, spec_join, spec_parent, spec_path_starts_with,
    spec_trim_leading_seps, spec_with_file_name, to_forward_slashes, trim_leading_seps,
};
use crate::text::{append_chars, chars_eq_at, chars_to_string, str_to_chars, sub_chars};
use crate::utils::{normalize_path, relative_to, spec_is_abs, spec_normalize, spec_relative_to};
use vstd::prelude::*;

verus! {

/// The default extensions, in probing order.
pub open spec fn default_ext(i: int) -> Seq<char> {
    if i == 0 {
        "js"@
    } else if i == 1 {
        "ts"@
    } else if i == 2 {
        "jsx"@
    } else if i == 3 {
        "tsx"@
    } else {
        "json"@
    }
}

pub open spec fn spec_is_default_ext(e: Seq<char>) -> bool {
    e == "js"@ || e == "ts"@ || e == "jsx"@ || e == "tsx"@ || e == "json"@
}

/// Whether a path already carries one of the default extensions.
pub open spec fn spec_is_default_extension(p: Seq<char>) -> bool {
    match spec_extension(p) {
        Option::Some(e) => spec_is_default_ext(e),
        Option::None => false,
    }
}

/// Compare a string against a literal.
fn eq_lit(s: &String, lit: &str) -> (r: bool)
    ensures
        r == (s@ == lit@),
{
    let l = String::from_str(lit);
    s.eq(&l)
}

/// Whether a path's extension is one of the default extensions.
pub fn is_default_extension(path: &str) -> (r: bool)
    ensures
        r == spec_is_default_extension(path@),
{
    match crate::pathops::path_extension(path) {
        None => false,
        Some(e) => eq_lit(&e, "js") || eq_lit(&e, "ts") || eq_lit(&e, "jsx") || eq_lit(&e, "tsx")
            || eq_lit(&e, "json"),
    }
}

/// A compile-to-js extension replaced by `js`; anything else untouched.
pub open spec fn spec_replace_js_ext(p: Seq<char>) -> Seq<char> {
    match spec_extension(p) {
        Option::Some(e) => if e == "ts"@ || e == "jsx"@ || e == "tsx"@ {
            p.take(ext_dot(p) + 1) + seq!['j', 's']
        } else {
            p
        },
        Option::None => p,
    }
}

/// Rewrite a `ts`, `jsx` or `tsx` extension to the runtime extension `js`.
pub fn replace_to_js_extension(path: &str) -> (r: String)
    ensures
        r@ == spec_replace_js_ext(path@),
{
    let v = str_to_chars(path);
    match ext_dot_index(&v) {
        None => String::from_str(path),
        Some(d) => {
            let n = v.len();
            proof {
                assert(d < n);
            }
            let e = sub_chars(&v, d + 1, n);
            let es = chars_to_string(&e);
            proof {
                assert(es@ =~= path@.skip(d + 1));
            }
            if eq_lit(&es, "ts") || eq_lit(&es, "jsx") || eq_lit(&es, "tsx") {
                let mut out = sub_chars(&v, 0, d + 1);
                out.push('j');
                out.push('s');
                proof {
                    assert(out@ =~= path@.take(d + 1) + seq!['j', 's']);
                }
                chars_to_string(&out)
            } else {
                String::from_str(path)
            }
        },
    }
}

/// Whether a specifier names a style sheet.
pub open spec fn spec_is_style(s: Seq<char>) -> bool {
    spec_ends_with(s, ".css"@) || spec_ends_with(s, ".scss"@) || spec_ends_with(s, ".sass"@)
}

/// Whether a specifier names a style sheet (`.css`, `.scss` or `.sass`).
pub fn is_style(source: &str) -> (r: bool)
    ensures
        r == spec_is_style(source@),
{
    ends_with_str(source, ".css") || ends_with_str(source, ".scss") || ends_with_str(
        source,
        ".sass",
    )
}

/// The `node:` prefix of a builtin specifier.
pub open spec fn node_prefix() -> Seq<char> {
    seq!['n', 'o', 'd', 'e', ':']
}

pub open spec fn spec_strip_node_prefix(m: Seq<char>) -> Seq<char> {
    if m.len() >= 5 && m.take(5) == node_prefix() {
        m.skip(5)
    } else {
        m
    }
}

/// The first index at or after `i` holding a separator, or the length.
pub open spec fn first_sep_from(s: Seq<char>, i: int) -> int
    decreases s.len() - i,
{
    if i < 0 || i >= s.len() {
        s.len() as int
    } else if s[i] == '/' {
        i
    } else {
        first_sep_from(s, i + 1)
    }
}

/// Everything before the first separator.
pub open spec fn spec_first_seg(s: Seq<char>) -> Seq<char> {
    s.take(first_sep_from(s, 0))
}

/// The host runtime's builtin module names.
pub open spec fn is_builtin_name(s: Seq<char>) -> bool {
    ||| s == "assert"@
    ||| s == "buffer"@
    ||| s == "child_process"@
    ||| s == "cluster"@
    ||| s == "console"@
    ||| s == "constants"@
    ||| s == "crypto"@
    ||| s == "dgram"@
    ||| s == "dns"@
    ||| s == "domain"@
    ||| s == "events"@
    ||| s == "fs"@
    ||| s == "http"@
    ||| s == "https"@
    ||| s == "net"@
    ||| s == "os"@
    ||| s == "path"@
    ||| s == "punycode"@
    ||| s == "querystring"@
    ||| s == "readline"@
    ||| s == "repl"@
    ||| s == "stream"@
    ||| s == "string_decoder"@
    ||| s == "timers"@
    ||| s == "tls"@
    ||| s == "tty"@
    ||| s == "url"@
    ||| s == "util"@
    ||| s == "v8"@
    ||| s == "vm"@
    ||| s == "zlib"@
}

/// Whether a specifier names a builtin module: an optional `node:` prefix is
/// dropped, and only the part before the first `/` counts.
pub open spec fn spec_is_builtin_module(m: Seq<char>) -> bool {
    is_builtin_name(spec_first_seg(spec_strip_node_prefix(m)))
}

/// Whether a specifier names a builtin module of the host runtime.
pub fn is_builtin_module(module: &str) -> (r: bool)
    ensures
        r == spec_is_builtin_module(module@),
{
    let v = str_to_chars(module);
    let mut node_pat: Vec<char> = Vec::new();
    node_pat.push('n');
    node_pat.push('o');
    node_pat.push('d');
    node_pat.push('e');
    node_pat.push(':');
    proof {
        assert(node_pat@ =~= node_prefix());
    }
    let stripped: Vec<char> = if v.len() >= 5 && chars_eq_at(&v, 0, &node_pat) {
        proof {
            assert(v@.subrange(0, 5) =~= v@.take(5));
        }
        sub_chars(&v, 5, v.len())
    } else {
        proof {
            if v@.len() >= 5 {
                assert(v@.subrange(0, 5) =~= v@.take(5));
            }
        }
        sub_chars(&v, 0, v.len())
    };
    proof {
        assert(stripped@ =~= spec_strip_node_prefix(module@));
    }
    let n = stripped.len();
    let mut i: usize = 0;
    while i < n && stripped[i] != '/'
        invariant
            0 <= i <= n,
            n == stripped@.len(),
            first_sep_from(stripped@, 0) == first_sep_from(stripped@, i as int),
        decreases n - i,
    {
        i += 1;
    }
    proof {
        assert(first_sep_from(stripped@, i as int) == i as int);
    }
    let seg = sub_chars(&stripped, 0, i);
    let s = chars_to_string(&seg);
    proof {
        assert(s@ =~= spec_first_seg(stripped@));
    }
    eq_lit(&s, "assert") || eq_lit(&s, "buffer") || eq_lit(&s, "child_process") || eq_lit(
        &s,
        "cluster",
    ) || eq_lit(&s, "console") || eq_lit(&s, "constants") || eq_lit(&s, "crypto") || eq_lit(
        &s,
        "dgram",
    ) || eq_lit(&s, "dns") || eq_lit(&s, "domain") || eq_lit(&s, "events") || eq_lit(&s, "fs")
        || eq_lit(&s, "http") || eq_lit(&s, "https") || eq_lit(&s, "net") || eq_lit(&s, "os")
        || eq_lit(&s, "path") || eq_lit(&s, "punycode") || eq_lit(&s, "querystring") || eq_lit(
        &s,
        "readline",
    ) || eq_lit(&s, "repl") || eq_lit(&s, "stream") || eq_lit(&s, "string_decoder") || eq_lit(
        &s,
        "timers",
    ) || eq_lit(&s, "tls") || eq_lit(&s, "tty") || eq_lit(&s, "url") || eq_lit(&s, "util")
        || eq_lit(&s, "v8") || eq_lit(&s, "vm") || eq_lit(&s, "zlib")
}

/// Where a required path resolves before the filesystem is consulted: a
/// root-relative specifier lands under `cwd`, any other replaces the source
/// file's name and is normalized.
pub open spec fn spec_resolve_required(cwd: Seq<char>, src: Seq<char>, req: Seq<char>) -> Seq<
    char,
> {
    if spec_is_abs(req) {
        spec_normalize(spec_join(cwd, spec_trim_leading_seps(req)))
    } else {
        spec_normalize(spec_with_file_name(spec_join(cwd, src), req))
    }
}

/// Resolve a required path against the source file that mentions it,
/// without consulting the filesystem.
pub fn resolve_required_file_path(
    cwd: &str,
    source_file_path: &str,
    required_file_path: &str,
) -> (r: String)
    ensures
        r@ == spec_resolve_required(cwd@, source_file_path@, required_file_path@),
{
    let v = str_to_chars(required_file_path);
    if v.len() > 0 && v[0] == '/' {
        let trimmed = trim_leading_seps(required_file_path);
        normalize_path(path_join(cwd, trimmed.as_str()).as_str())
    } else {
        let joined = path_join(cwd, source_file_path);
        let w = path_with_file_name(joined.as_str(), required_file_path);
        normalize_path(w.as_str())
    }
}

/// What stands between a probed path and the extension of its `index`
/// fallback.
pub open spec fn index_infix() -> Seq<char> {
    seq!['/', 'i', 'n', 'd', 'e', 'x', '.']
}

/// The path itself, when it already carries a default extension; tried
/// before any extension is appended.
pub open spec fn probe_head(p: Seq<char>) -> Seq<Seq<char>> {
    if spec_is_default_extension(p) {
        seq![p]
    } else {
        Seq::empty()
    }
}

/// The path with each default extension appended, in probing order.
pub open spec fn probe_ext_list(p: Seq<char>) -> Seq<Seq<char>> {
    Seq::new(5, |i: int| p + seq!['.'] + default_ext(i))
}

/// The path's `index` file with each default extension, in probing order.
pub open spec fn probe_index_list(p: Seq<char>) -> Seq<Seq<char>> {
    Seq::new(5, |i: int| p + index_infix() + default_ext(i))
}

/// Every candidate the probe tries, in the exact order it tries them: the
/// path itself (only when it already has a default extension), then the
/// path with each default extension, then its `index` file with each.
pub open spec fn spec_probe_list(p: Seq<char>) -> Seq<Seq<char>> {
    probe_head(p) + probe_ext_list(p) + probe_index_list(p)
}

/// Whether `c` is one of the probe's candidates for `p`.
pub open spec fn spec_probe_candidate(p: Seq<char>, c: Seq<char>) -> bool {
    spec_probe_list(p).contains(c)
}

/// The default extensions as executable character vectors.
fn default_extensions() -> (r: Vec<Vec<char>>)
    ensures
        r@.len() == 5,
        forall|i: int| 0 <= i < 5 ==> (#[trigger] r@[i])@ == default_ext(i),
{
    let mut v: Vec<Vec<char>> = Vec::new();
    v.push(str_to_chars("js"));
    v.push(str_to_chars("ts"));
    v.push(str_to_chars("jsx"));
    v.push(str_to_chars("tsx"));
    v.push(str_to_chars("json"));
    proof {
        assert(v@[0]@ == default_ext(0));
        assert(v@[1]@ == default_ext(1));
        assert(v@[2]@ == default_ext(2));
        assert(v@[3]@ == default_ext(3));
        assert(v@[4]@ == default_ext(4));
    }
    v
}

/// Build the probe's candidate list for a path, in probing order.
pub fn probe_candidates(file_path: &str) -> (r: Vec<String>)
    ensures
        views_of(r@) == spec_probe_list(file_path@),
{
    let ghost p = file_path@;
    let mut out: Vec<String> = Vec::new();
    if is_default_extension(file_path) {
        out.push(String::from_str(file_path));
    }
    proof {
        assert(views_of(out@) =~= probe_head(p));
        assert(probe_ext_list(p).take(0) =~= Seq::<Seq<char>>::empty());
        assert(views_of(out@) =~= probe_head(p) + probe_ext_list(p).take(0));
    }
    let exts = default_extensions();
    let base = str_to_chars(file_path);
    let mut k: usize = 0;
    while k < 5
        invariant
            0 <= k <= 5,
            exts@.len() == 5,
            forall|i: int| 0 <= i < 5 ==> (#[trigger] exts@[i])@ == default_ext(i),
            base@ == p,
            p == file_path@,
            views_of(out@) == probe_head(p) + probe_ext_list(p).take(k as int),
        decreases 5 - k,
    {
        let mut cand = sub_chars(&base, 0, base.len());
        cand.push('.');
        append_chars(&mut cand, &exts[k]);
        proof {
            assert(cand@ =~= p + seq!['.'] + default_ext(k as int));
        }
        let cs = chars_to_string(&cand);
        let ghost before = out@;
        out.push(cs);
        k += 1;
        proof {
            assert(views_of(out@) =~= views_of(before).push(cand@)) by {
                assert(out@ == before.push(cs));
                assert forall|t: int| 0 <= t < out@.len() implies views_of(out@)[t] == views_of(
                    before,
                ).push(cand@)[t] by {
                    if t < before.len() {
                        assert(out@[t] == before[t]);
                    } else {
                        assert(out@[t] == cs);
                    }
                }
            }
            assert(probe_ext_list(p)[k - 1] == p + seq!['.'] + default_ext(k - 1));
            assert(probe_ext_list(p).take(k as int) =~= probe_ext_list(p).take(
                k as int - 1,
            ).push(probe_ext_list(p)[k - 1]));
            assert(views_of(before).push(cand@) =~= probe_head(p) + probe_ext_list(p).take(
                k as int,
            ));
        }
    }
    let mut infix: Vec<char> = Vec::new();
    infix.push('/');
    infix.push('i');
    infix.push('n');
    infix.push('d');
    infix.push('e');
    infix.push('x');
    infix.push('.');
    proof {
        assert(infix@ =~= index_infix());
        assert(probe_ext_list(p).take(5) =~= probe_ext_list(p));
        assert(probe_index_list(p).take(0) =~= Seq::<Seq<char>>::empty());
        assert(views_of(out@) =~= probe_head(p) + probe_ext_list(p) + probe_index_list(p).take(0));
    }
    let mut k2: usize = 0;
    while k2 < 5
        invariant
            0 <= k2 <= 5,
            exts@.len() == 5,
            forall|i: int| 0 <= i < 5 ==> (#[trigger] exts@[i])@ == default_ext(i),
            base@ == p,
            p == file_path@,
            infix@ == index_infix(),
            views_of(out@) == probe_head(p) + probe_ext_list(p) + probe_index_list(p).take(
                k2 as int,
            ),
        decreases 5 - k2,
    {
        let mut cand = sub_chars(&base, 0, base.len());
        append_chars(&mut cand, &infix);
        append_chars(&mut cand, &exts[k2]);
        proof {
            assert(cand@ =~= p + index_infix() + default_ext(k2 as int));
        }
        let cs = chars_to_string(&cand);
        let ghost before = out@;
        out.push(cs);
        k2 += 1;
        proof {
            assert(views_of(out@) =~= views_of(before).push(cand@)) by {
                assert(out@ == before.push(cs));
                assert forall|t: int| 0 <= t < out@.len() implies views_of(out@)[t] == views_of(
                    before,
                ).push(cand@)[t] by {
                    if t < before.len() {
                        assert(out@[t] == before[t]);
                    } else {
                        assert(out@[t] == cs);
                    }
                }
            }
            assert(probe_index_list(p)[k2 - 1] == p + index_infix() + default_ext(k2 - 1));
            assert(probe_index_list(p).take(k2 as int) =~= probe_index_list(p).take(
                k2 as int - 1,
            ).push(probe_index_list(p)[k2 - 1]));
            assert(views_of(before).push(cand@) =~= probe_head(p) + probe_ext_list(p)
                + probe_index_list(p).take(k2 as int));
        }
    }
    proof {
        assert(probe_index_list(p).take(5) =~= probe_index_list(p));
        assert(views_of(out@) =~= spec_probe_list(p));
    }
    out
}

/// Ask the disk about each candidate in order and keep the first that
/// exists.  Which one that is depends on the disk; the result is always one
/// of the given candidates.
pub fn first_existing(candidates: &Vec<String>) -> (r: Option<String>)
    ensures
        r matches Some(c) ==> views_of(candidates@).contains(c@),
{
    let mut i: usize = 0;
    while i < candidates.len()
        invariant
            0 <= i <= candidates@.len(),
        decreases candidates@.len() - i,
    {
        if path_exists(candidates[i].as_str()) {
            let c = candidates[i].clone();
            proof {
                assert(views_of(candidates@)[i as int] == candidates@[i as int]@);
                assert(views_of(candidates@).contains(c@));
            }
            return Some(c);
        }
        i += 1;
    }
    None
}

/// Probe a candidate path on disk: first as it stands (when it already has a
/// default extension), then with each default extension appended, then as a
/// directory holding an `index` file, taking the first existing form.  The
/// candidate list and its order are fixed by `spec_probe_list`; which entry
/// exists depends on the disk.
pub fn resolve_file_path(file_path: &str) -> (r: Option<String>)
    ensures
        r matches Some(c) ==> spec_probe_candidate(file_path@, c@),
{
    let cands = probe_candidates(file_path);
    first_existing(&cands)
}

/// A package specifier's directory under an ancestor's `node_modules`.
pub open spec fn spec_pkg_dir(d: Seq<char>, req: Seq<char>) -> Seq<char> {
    spec_join(spec_join(d, "node_modules"@), req)
}

/// The normalized target one of the manifest text's entry fields names:
/// `p` is the package directory joined with the string under `main` or
/// under `module` and collapsed.
pub open spec fn spec_manifest_entry_target(
    pkg: Seq<char>,
    text: Seq<char>,
    p: Seq<char>,
) -> bool {
    ||| (manifest_field_of(text, "main"@) matches Some(e) && p == spec_normalize(
        spec_join(pkg, e),
    ))
    ||| (manifest_field_of(text, "module"@) matches Some(e) && p == spec_normalize(
        spec_join(pkg, e),
    ))
}

/// What a `node_modules` walk can return: for some directory that extends
/// the project root and that the source file's path extends in turn, either
/// a probe candidate of `node_modules/<specifier>` under it, or the target
/// an actually-read manifest text names for that package.
pub open spec fn spec_node_modules_result(
    cwd: Seq<char>,
    src: Seq<char>,
    req: Seq<char>,
    p: Seq<char>,
) -> bool {
    exists|d: Seq<char>|
        #![trigger spec_pkg_dir(d, req)]
        spec_path_starts_with(d, cwd) && spec_path_starts_with(spec_join(cwd, src), d) && (
        spec_probe_candidate(spec_pkg_dir(d, req), p) || exists|text: Seq<char>|
            spec_manifest_entry_target(spec_pkg_dir(d, req), text, p))
}

/// Read a package's entry from its manifest text: the `main` field first,
/// then the `module` field, taking the first whose normalized target exists
/// on disk.  Unparsable text, a missing field, a non-string field or a
/// missing target all degrade to `None`.
fn package_entry_path(pkg_dir: &str, text: &str) -> (r: Option<String>)
    ensures
        r matches Some(p) ==> spec_manifest_entry_target(pkg_dir@, text@, p@),
        manifest_field_of(text@, "main"@) is None && manifest_field_of(text@, "module"@) is None
            ==> r is None,
{
    match manifest_string_field(text, "main") {
        Some(e) => {
            let mp = normalize_path(path_join(pkg_dir, e.as_str()).as_str());
            if path_exists(mp.as_str()) {
                return Some(mp);
            }
        },
        None => {},
    }
    match manifest_string_field(text, "module") {
        Some(e) => {
            let mp = normalize_path(path_join(pkg_dir, e.as_str()).as_str());
            if path_exists(mp.as_str()) {
                return Some(mp);
            }
        },
        None => {},
    }
    None
}

/// Walk from the source file's directory up through its ancestors, while
/// they stay inside the project root, looking for the specifier under each
/// ancestor's `node_modules`: first by probing, then through the package
/// manifest's `main` and `module` fields.
pub fn resolve_node_modules_file(
    cwd: &str,
    source_file_path: &str,
    required_file_path: &str,
) -> (r: Option<String>)
    ensures
        r matches Some(p) ==> spec_node_modules_result(
            cwd@,
            source_file_path@,
            required_file_path@,
            p@,
        ),
{
    let source_abs = path_join(cwd, source_file_path);
    let mut dir_opt: Option<String> = path_parent(source_abs.as_str());
    proof {
        match spec_parent(source_abs@) {
            Option::Some(par) => {
                lemma_parent_prefix(source_abs@, par);
            },
            Option::None => {},
        }
    }
    let mut found: Option<String> = None;
    while dir_opt.is_some()
        invariant
            source_abs@ == spec_join(cwd@, source_file_path@),
            dir_opt matches Some(d) ==> spec_path_starts_with(source_abs@, d@),
            found matches Some(p) ==> spec_node_modules_result(
                cwd@,
                source_file_path@,
                required_file_path@,
                p@,
            ),
            found is Some ==> dir_opt is None,
        decreases (match dir_opt {
            Some(d) => d@.len() + 1,
            None => 0,
        }),
    {
        let d = match dir_opt {
            Some(d) => d,
            None => {
                return found;
            },
        };
        if !path_starts_with(d.as_str(), cwd) {
            dir_opt = None;
        } else {
            let nm = path_join(d.as_str(), "node_modules");
            let pkg = path_join(nm.as_str(), required_file_path);
            proof {
                assert(pkg@ == spec_pkg_dir(d@, required_file_path@));
            }
            match resolve_file_path(pkg.as_str()) {
                Some(p) => {
                    proof {
                        assert(spec_node_modules_result(
                            cwd@,
                            source_file_path@,
                            required_file_path@,
                            p@,
                        )) by {
                            assert(spec_path_starts_with(d@, cwd@) && spec_path_starts_with(
                                spec_join(cwd@, source_file_path@),
                                d@,
                            ) && spec_probe_candidate(spec_pkg_dir(d@, required_file_path@), p@));
                        }
                    }
                    found = Some(p);
                    dir_opt = None;
                },
                None => {
                    let pkg_json = path_join(pkg.as_str(), "package.json");
                    let mut entry: Option<String> = None;
                    let ghost mut text_read: Seq<char> = Seq::empty();
                    if path_exists(pkg_json.as_str()) {
                        match read_text(pkg_json.as_str()) {
                            Some(text) => {
                                proof {
                                    text_read = text@;
                                }
                                entry = package_entry_path(pkg.as_str(), text.as_str());
                            },
                            None => {},
                        }
                    }
                    match entry {
                        Some(p) => {
                            proof {
                                assert(spec_node_modules_result(
                                    cwd@,
                                    source_file_path@,
                                    required_file_path@,
                                    p@,
                                )) by {
                                    assert(spec_manifest_entry_target(
                                        spec_pkg_dir(d@, required_file_path@),
                                        text_read,
                                        p@,
                                    ));
                                    assert(spec_path_starts_with(d@, cwd@)
                                        && spec_path_starts_with(
                                        spec_join(cwd@, source_file_path@),
                                        d@,
                                    ));
                                }
                            }
                            found = Some(p);
                            dir_opt = None;
                        },
                        None => {
                            let next = path_parent(d.as_str());
                            proof {
                                match spec_parent(d@) {
                                    Option::Some(par) => {
                                        lemma_parent_prefix(d@, par);
                                        lemma_starts_with_trans(source_abs@, d@, par);
                                    },
                                    Option::None => {},
                                }
                            }
                            dir_opt = next;
                        },
                    }
                },
            }
        }
    }
    found
}

/// A source position, carried through so diagnostics can point at the node
/// that mentioned the unresolved specifier.
#[derive(Clone, Copy, PartialEq, Eq, Structural, Debug)]
pub struct Span {
    pub lo: u32,
    pub hi: u32,
}

/// A diagnostic bound to a source position.
pub struct Diagnostic {
    pub span: Span,
    pub message: String,
}

/// What one resolution attempt produced: both fields present on success,
/// both absent for pass-through specifiers and for failures.
pub struct TransformResult {
    pub absolute_path: Option<String>,
    pub transformed_path: Option<String>,
}

/// Whether the specifier stands in the caller-supplied external list.
pub open spec fn spec_is_external(req: Seq<char>, exts: Seq<String>) -> bool {
    exists|i: int| 0 <= i < exts.len() && exts[i]@ == req
}

/// A specifier that is passed through unresolved: a builtin module or a
/// configured external package.
pub open spec fn spec_passthrough(req: Seq<char>, exts: Seq<String>) -> bool {
    spec_is_builtin_module(req) || spec_is_external(req, exts)
}

/// The message reported for an unresolved specifier.
pub open spec fn spec_unresolved_message(filename: Seq<char>, req: Seq<char>) -> Seq<char> {
    "cannot resolve "@ + req + " required from "@ + filename
}

/// The directory a rewritten specifier is made relative to: the directory
/// of the source file under traversal.
pub open spec fn spec_rewrite_base(cwd: Seq<char>, filename: Seq<char>) -> Seq<char> {
    match spec_parent(spec_join(cwd, filename)) {
        Option::Some(d) => d,
        Option::None => spec_join(cwd, filename),
    }
}

/// The rewritten form of a resolved absolute path: its extension rewritten
/// to the runtime extension, made relative to the source file's directory,
/// with backslashes turned forward.
pub open spec fn spec_rewritten_specifier(
    cwd: Seq<char>,
    filename: Seq<char>,
    a: Seq<char>,
) -> Seq<char> {
    spec_relative_to(
        spec_forward_slashes(spec_rewrite_base(cwd, filename)),
        spec_forward_slashes(spec_replace_js_ext(a)),
    )
}

/// An absolute path a resolution rooted at an existing project directory can
/// return: a probe of the specifier's computed path, or a `node_modules`
/// lookup.
pub open spec fn spec_resolved_in_project(
    cwd: Seq<char>,
    filename: Seq<char>,
    req: Seq<char>,
    a: Seq<char>,
) -> bool {
    spec_probe_candidate(spec_resolve_required(cwd, filename, req), a)
    || spec_node_modules_result(cwd, filename, req, a)
}

/// Whether `s` stands in the external package list.
fn contains_string(v: &Vec<String>, s: &str) -> (r: bool)
    ensures
        r == spec_is_external(s@, v@),
{
    let key = String::from_str(s);
    let mut i: usize = 0;
    while i < v.len()
        invariant
            0 <= i <= v@.len(),
            key@ == s@,
            forall|t: int| 0 <= t < i ==> (#[trigger] v@[t])@ != s@,
        decreases v@.len() - i,
    {
        if v[i].eq(&key) {
            proof {
                assert(spec_is_external(s@, v@)) by {
                    assert(0 <= i < v@.len() && v@[i as int]@ == s@);
                }
            }
            return true;
        }
        i += 1;
    }
    false
}

/// Resolve one specifier against the project.  Builtin and external
/// specifiers pass through untouched and unreported.  Otherwise the
/// specifier's path is computed; if the project root exists on disk the path
/// is verified by probing and by the `node_modules` walk, and a failure is
/// reported at `node_span`; if the project root does not exist, the computed
/// path is accepted unverified.  On success the rewritten specifier is the
/// absolute path with its extension rewritten to `js`, made relative to the
/// source file's directory, and with backslashes turned forward.
pub fn process_transform(
    node_span: Span,
    cwd: &str,
    filename: &str,
    required_file_path: &str,
    external_packages: &Vec<String>,
    diagnostics: &mut Vec<Diagnostic>,
) -> (r: TransformResult)
    ensures
        r.absolute_path is Some <==> r.transformed_path is Some,
        spec_passthrough(required_file_path@, external_packages@) ==> r.absolute_path is None
            && final(diagnostics)@ == old(diagnostics)@,
        (r.absolute_path is None && !spec_passthrough(required_file_path@, external_packages@))
            ==> final(diagnostics)@.len() == old(diagnostics)@.len() + 1 && (forall|i: int|
            0 <= i < old(diagnostics)@.len() ==> final(diagnostics)@[i] == old(diagnostics)@[i])
            && final(diagnostics)@.last().span == node_span
            && final(diagnostics)@.last().message@ == spec_unresolved_message(
            filename@,
            required_file_path@,
        ),
        r.absolute_path matches Some(a) ==> final(diagnostics)@ == old(diagnostics)@
            && !spec_passthrough(required_file_path@, external_packages@),
        r.absolute_path matches Some(a) ==> r.transformed_path matches Some(t) ==> {
            ||| (spec_resolved_in_project(cwd@, filename@, required_file_path@, a@) && t@
                == spec_rewritten_specifier(cwd@, filename@, a@))
            ||| (a@ == spec_resolve_required(seq!['/'], filename@, required_file_path@) && t@
                == spec_forward_slashes(spec_replace_js_ext(a@)))
        },
{
    if is_builtin_module(required_file_path) || contains_string(
        external_packages,
        required_file_path,
    ) {
        return TransformResult { absolute_path: None, transformed_path: None };
    }
    let is_cwd_exists = path_exists(cwd);
    let cwd_eff = if is_cwd_exists {
        String::from_str(cwd)
    } else {
        String::from_str("/")
    };
    let full = resolve_required_file_path(cwd_eff.as_str(), filename, required_file_path);
    if is_cwd_exists {
        let first = resolve_file_path(full.as_str());
        let resolved = match first {
            Some(p) => Some(p),
            None => resolve_node_modules_file(
                cwd_eff.as_str(),
                filename,
                required_file_path,
            ),
        };
        match resolved {
            Some(p) => {
                let jp = replace_to_js_extension(p.as_str());
                let source_abs = path_join(cwd_eff.as_str(), filename);
                let base = match path_parent(source_abs.as_str()) {
                    Some(d) => d,
                    None => source_abs,
                };
                let base_f = to_forward_slashes(base.as_str());
                let jp_f = to_forward_slashes(jp.as_str());
                let t = relative_to(base_f.as_str(), jp_f.as_str());
                TransformResult { absolute_path: Some(p), transformed_path: Some(t) }
            },
            None => {
                let mut msg = String::from_str("cannot resolve ");
                msg.append(required_file_path);
                msg.append(" required from ");
                msg.append(filename);
                diagnostics.push(Diagnostic { span: node_span, message: msg });
                TransformResult { absolute_path: None, transformed_path: None }
            },
        }
    } else {
        proof {
            reveal_strlit("/");
            assert(cwd_eff@ =~= seq!['/']);
        }
        let jp = replace_to_js_extension(full.as_str());
        let t = to_forward_slashes(jp.as_str());
        TransformResult { absolute_path: Some(full), transformed_path: Some(t) }
    }
}

/// The views of a vector of strings.
pub open spec fn views_of(v: Seq<String>) -> Seq<Seq<char>> {
    v.map_values(|s: String| s@)
}

/// Set-like insertion into the dependency list: already-present paths are
/// not added again.
pub open spec fn spec_insert(s: Seq<Seq<char>>, a: Seq<char>) -> Seq<Seq<char>> {
    if s.contains(a) {
        s
    } else {
        s.push(a)
    }
}

/// Compare a string slice against a literal.
fn str_eq_lit(s: &str, lit: &str) -> (r: bool)
    ensures
        r == (s@ == lit@),
{
    let a = String::from_str(s);
    eq_lit(&a, lit)
}

/// Whether a parameter list rebinds `require`.
pub open spec fn spec_params_shadow(params: Seq<String>) -> bool {
    exists|i: int| 0 <= i < params.len() && params[i]@ == "require"@
}

/// Whether one of the parameter identifiers is literally `require`.
pub fn params_shadow_require(params: &Vec<String>) -> (r: bool)
    ensures
        r == spec_params_shadow(params@),
{
    let mut i: usize = 0;
    while i < params.len()
        invariant
            0 <= i <= params@.len(),
            forall|t: int| 0 <= t < i ==> (#[trigger] params@[t])@ != "require"@,
        decreases params@.len() - i,
    {
        if eq_lit(&params[i], "require") {
            proof {
                assert(spec_params_shadow(params@)) by {
                    assert(0 <= i < params@.len() && params@[i as int]@ == "require"@);
                }
            }
            return true;
        }
        i += 1;
    }
    false
}

/// The pair an accepted resolution produces: either the absolute path was
/// verified against the project (probe or `node_modules` walk) and the
/// rewritten specifier is that path with its extension rewritten, the
/// project root removed and slashes turned forward; or the project root was
/// absent and the computed path was accepted with only the extension rewrite
/// and slash conversion.
pub open spec fn spec_success_pair(
    cwd: Seq<char>,
    filename: Seq<char>,
    req: Seq<char>,
    a: Seq<char>,
    t: Seq<char>,
) -> bool {
    ||| (spec_resolved_in_project(cwd, filename, req, a) && t == spec_rewritten_specifier(
        cwd,
        filename,
        a,
    ))
    ||| (a == spec_resolve_required(seq!['/'], filename, req) && t == spec_forward_slashes(
        spec_replace_js_ext(a),
    ))
}

/// The per-file traversal state: the project root and file under traversal,
/// the externals, the dependencies collected so far, the `require` shadowing
/// depth, and the diagnostics emitted so far.
pub struct ModuleResolverVisit {
    pub cwd: String,
    pub filename: String,
    pub external_packages: Vec<String>,
    pub requires: Vec<String>,
    pub require_as_scope_bind_depth: u64,
    pub diagnostics: Vec<Diagnostic>,
}

impl ModuleResolverVisit {
    /// A fresh traversal state: no dependencies, no diagnostics, depth zero.
    pub fn new(cwd: String, filename: String, external_packages: Vec<String>) -> (r:
        ModuleResolverVisit)
        ensures
            r.cwd == cwd,
            r.filename == filename,
            r.external_packages == external_packages,
            r.requires@ == Seq::<String>::empty(),
            r.require_as_scope_bind_depth == 0,
            r.diagnostics@ == Seq::<Diagnostic>::empty(),
    {
        ModuleResolverVisit {
            cwd,
            filename,
            external_packages,
            requires: Vec::new(),
            require_as_scope_bind_depth: 0,
            diagnostics: Vec::new(),
        }
    }

    /// Enter a function-like scope: when a parameter rebinds `require`, the
    /// shadow depth rises by one.  Returns the depth to restore on leaving.
    pub fn enter_function_scope(&mut self, params: &Vec<String>) -> (saved: u64)
        requires
            old(self).require_as_scope_bind_depth < u64::MAX,
        ensures
            saved == old(self).require_as_scope_bind_depth,
            final(self).require_as_scope_bind_depth == old(self).require_as_scope_bind_depth + (
            if spec_params_shadow(params@) {
                1int
            } else {
                0int
            }),
            final(self).cwd == old(self).cwd,
            final(self).filename == old(self).filename,
            final(self).external_packages == old(self).external_packages,
            final(self).requires == old(self).requires,
            final(self).diagnostics == old(self).diagnostics,
    {
        let saved = self.require_as_scope_bind_depth;
        if params_shadow_require(params) {
            self.require_as_scope_bind_depth = self.require_as_scope_bind_depth + 1;
        }
        saved
    }

    /// Leave a function-like scope, restoring the depth saved on entry.
    pub fn leave_function_scope(&mut self, saved: u64)
        ensures
            final(self).require_as_scope_bind_depth == saved,
            final(self).cwd == old(self).cwd,
            final(self).filename == old(self).filename,
            final(self).external_packages == old(self).external_packages,
            final(self).requires == old(self).requires,
            final(self).diagnostics == old(self).diagnostics,
    {
        self.require_as_scope_bind_depth = saved;
    }

    /// Record a resolved absolute path, keeping the dependency list free of
    /// duplicates.
    fn insert_require(&mut self, a: String)
        ensures
            views_of(final(self).requires@) == spec_insert(views_of(old(self).requires@), a@),
            final(self).cwd == old(self).cwd,
            final(self).filename == old(self).filename,
            final(self).external_packages == old(self).external_packages,
            final(self).require_as_scope_bind_depth == old(self).require_as_scope_bind_depth,
            final(self).diagnostics == old(self).diagnostics,
    {
        let present = contains_string(&self.requires, a.as_str());
        proof {
            let vs = views_of(self.requires@);
            if present {
                let i = choose|i: int|
                    0 <= i < self.requires@.len() && self.requires@[i]@ == a@;
                assert(vs[i] == a@);
                assert(vs.contains(a@));
            } else {
                if vs.contains(a@) {
                    let i = choose|i: int| 0 <= i < vs.len() && vs[i] == a@;
                    assert(self.requires@[i]@ == a@);
                    assert(spec_is_external(a@, self.requires@));
                }
            }
        }
        if !present {
            self.requires.push(a);
            proof {
                assert(views_of(self.requires@) =~= views_of(old(self).requires@).push(a@));
            }
        }
    }

    /// Handle one call expression.  The call is treated as a module
    /// reference only when the callee is the bare identifier `require`,
    /// exactly one argument stands there, that argument is a string literal,
    /// and no enclosing scope rebinds `require`.  On success the returned
    /// rewritten specifier replaces the call's argument; on pass-through or
    /// failure the call is left untouched.
    pub fn visit_call_expr(
        &mut self,
        span: Span,
        callee_ident: Option<&str>,
        n_args: usize,
        first_arg_str: Option<&str>,
    ) -> (r: Option<String>)
        ensures
            final(self).cwd == old(self).cwd,
            final(self).filename == old(self).filename,
            final(self).external_packages == old(self).external_packages,
            final(self).require_as_scope_bind_depth == old(
                self,
            ).require_as_scope_bind_depth,
            !(old(self).require_as_scope_bind_depth == 0 && (callee_ident matches Some(c)
                && c@ == "require"@) && n_args == 1 && first_arg_str is Some) ==> r is None
                && final(self).requires == old(self).requires && final(self).diagnostics == old(
                self,
            ).diagnostics,
            first_arg_str matches Some(arg) ==> spec_call_outcome(
                *old(self),
                *final(self),
                span,
                arg@,
                r,
                old(self).require_as_scope_bind_depth == 0 && (callee_ident matches Some(c)
                    && c@ == "require"@) && n_args == 1,
            ),
    {
        let is_callee_require = match callee_ident {
            Some(c) => str_eq_lit(c, "require"),
            None => false,
        };
        if !(self.require_as_scope_bind_depth == 0 && is_callee_require && n_args == 1) {
            return None;
        }
        let arg = match first_arg_str {
            Some(a) => a,
            None => {
                return None;
            },
        };
        self.resolve_and_record(span, arg)
    }

    /// Handle one static import declaration.  A style import is skipped
    /// outright; any other specifier goes through resolution, and on success
    /// the returned rewritten specifier replaces the declaration's source.
    pub fn visit_import_decl(&mut self, span: Span, specifier: &str) -> (r: Option<String>)
        ensures
            final(self).cwd == old(self).cwd,
            final(self).filename == old(self).filename,
            final(self).external_packages == old(self).external_packages,
            final(self).require_as_scope_bind_depth == old(
                self,
            ).require_as_scope_bind_depth,
            spec_is_style(specifier@) ==> r is None && final(self).requires == old(self).requires
                && final(self).diagnostics == old(self).diagnostics,
            spec_call_outcome(
                *old(self),
                *final(self),
                span,
                specifier@,
                r,
                !spec_is_style(specifier@),
            ),
    {
        if is_style(specifier) {
            return None;
        }
        self.resolve_and_record(span, specifier)
    }

    /// Resolve a specifier and record its outcome in the traversal state.
    fn resolve_and_record(&mut self, span: Span, req: &str) -> (r: Option<String>)
        ensures
            final(self).cwd == old(self).cwd,
            final(self).filename == old(self).filename,
            final(self).external_packages == old(self).external_packages,
            final(self).require_as_scope_bind_depth == old(
                self,
            ).require_as_scope_bind_depth,
            spec_call_outcome(*old(self), *final(self), span, req@, r, true),
    {
        let result = process_transform(
            span,
            self.cwd.as_str(),
            self.filename.as_str(),
            req,
            &self.external_packages,
            &mut self.diagnostics,
        );
        match result.absolute_path {
            Some(a) => {
                let ghost av = a@;
                self.insert_require(a);
                proof {
                    match result.transformed_path {
                        Option::Some(ref t) => {
                            assert(spec_success_pair(
                                old(self).cwd@,
                                old(self).filename@,
                                req@,
                                av,
                                t@,
                            ) && views_of(self.requires@) == spec_insert(
                                views_of(old(self).requires@),
                                av,
                            ));
                        },
                        Option::None => {},
                    }
                }
            },
            None => {},
        }
        result.transformed_path
    }
}

/// What one resolution attempt does to the traversal state.  When the node
/// is not attempted (`attempted` false) nothing changes.  A pass-through
/// specifier changes nothing.  A success pushes the absolute path into the
/// dependency list (unless already there) and returns the rewritten
/// specifier.  A failure leaves the dependencies alone, returns nothing, and
/// appends exactly one diagnostic at the node's span.
pub open spec fn spec_call_outcome(
    pre: ModuleResolverVisit,
    post: ModuleResolverVisit,
    span: Span,
    req: Seq<char>,
    r: Option<String>,
    attempted: bool,
) -> bool {
    &&& (!attempted ==> r is None && post.requires == pre.requires && post.diagnostics@
        == pre.diagnostics@)
    &&& (attempted && spec_passthrough(req, pre.external_packages@) ==> r is None
        && post.requires == pre.requires && post.diagnostics@ == pre.diagnostics@)
    &&& (attempted ==> (r matches Some(t) ==> post.diagnostics@ == pre.diagnostics@ && exists|
        a: Seq<char>,
    |
        spec_success_pair(pre.cwd@, pre.filename@, req, a, t@) && views_of(post.requires@)
            == spec_insert(views_of(pre.requires@), a)))
    &&& (attempted && r is None && !spec_passthrough(req, pre.external_packages@)
        ==> post.requires == pre.requires && post.diagnostics@.len() == pre.diagnostics@.len()
        + 1 && (forall|i: int|
        0 <= i < pre.diagnostics@.len() ==> post.diagnostics@[i] == pre.diagnostics@[i])
        && post.diagnostics@.last().span == span && post.diagnostics@.last().message@
        == spec_unresolved_message(pre.filename@, req))
}

/// A top-level module item, as far as the retain pass cares: an import
/// declaration with its specifier, or anything else.
pub enum ModuleItem {
    ImportDecl { specifier: String },
    Other,
}

/// Whether the retain pass keeps an item: everything but a style import.
pub open spec fn spec_keep_item(it: ModuleItem) -> bool {
    match it {
        ModuleItem::ImportDecl { specifier } => !spec_is_style(specifier@),
        ModuleItem::Other => true,
    }
}

/// Which top-level items survive the second pass over a module's body:
/// exactly those that are not style imports.
pub fn module_items_to_keep(items: &Vec<ModuleItem>) -> (keep: Vec<bool>)
    ensures
        keep@.len() == items@.len(),
        forall|i: int| 0 <= i < items@.len() ==> keep@[i] == spec_keep_item(#[trigger] items@[i]),
{
    let mut keep: Vec<bool> = Vec::new();
    let mut i: usize = 0;
    while i < items.len()
        invariant
            0 <= i <= items@.len(),
            keep@.len() == i,
            forall|t: int| 0 <= t < i ==> keep@[t] == spec_keep_item(#[trigger] items@[t]),
        decreases items@.len() - i,
    {
        let k = match &items[i] {
            ModuleItem::ImportDecl { specifier } => !is_style(specifier.as_str()),
            ModuleItem::Other => true,
        };
        keep.push(k);
        i += 1;
    }
    keep
}

/// The top-level items that survive the retain pass, in order.
pub open spec fn spec_retained_items(items: Seq<ModuleItem>) -> Seq<ModuleItem> {
    items.filter(|it: ModuleItem| spec_keep_item(it))
}

/// After the retain pass, no style import remains among a module's
/// top-level items, and every item that is not a style import survives.
pub proof fn lemma_retain_removes_exactly_style_imports(items: Seq<ModuleItem>)
    ensures
        forall|j: int|
            0 <= j < spec_retained_items(items).len() ==> spec_keep_item(
                #[trigger] spec_retained_items(items)[j],
            ),
        forall|i: int|
            0 <= i < items.len() && spec_keep_item(#[trigger] items[i])
                ==> spec_retained_items(items).contains(items[i]),
{
    let pred = |it: ModuleItem| spec_keep_item(it);
    assert forall|j: int| 0 <= j < spec_retained_items(items).len() implies spec_keep_item(
        spec_retained_items(items)[j],
    ) by {
        items.lemma_filter_pred(pred, j);
    }
    assert forall|i: int|
        0 <= i < items.len() && spec_keep_item(items[i]) implies spec_retained_items(
        items,
    ).contains(items[i]) by {
        items.lemma_filter_contains(pred, i);
    }
}

} // verus!
