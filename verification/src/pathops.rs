//! Path algebra over forward-slash paths: joining, parents, file names,
//! extensions, prefixes.  Everything here is pure string computation; nothing
//! touches the filesystem.

use crate::text::{append_chars, chars_eq_at, chars_to_string, str_to_chars, sub_chars};
use crate::utils::spec_is_abs;
use vstd::prelude::*;

verus! {

/// The largest index below `i` holding a separator, or -1.
pub open spec fn last_sep_before(p: Seq<char>, i: int) -> int
    decreases i,
{
    if i <= 0 {
        -1
    } else if p[i - 1] == '/' {
        i - 1
    } else {
        last_sep_before(p, i - 1)
    }
}

/// The index of the last separator of a path, or -1.
pub open spec fn last_sep(p: Seq<char>) -> int {
    last_sep_before(p, p.len() as int)
}

/// Joining as the standard path type joins: an absolute right side wins, an
/// empty or separator-terminated left side takes the right side directly.
pub open spec fn spec_join(a: Seq<char>, b: Seq<char>) -> Seq<char> {
    if spec_is_abs(b) {
        b
    } else if a.len() == 0 {
        b
    } else if a[a.len() - 1] == '/' {
        a + b
    } else {
        a + seq!['/'] + b
    }
}

/// The parent of a path: everything before the last separator.  The root and
/// the empty path have none.
pub open spec fn spec_parent(p: Seq<char>) -> Option<Seq<char>> {
    if p.len() == 0 || p == seq!['/'] {
        Option::None
    } else {
        let j = last_sep(p);
        if j == -1 {
            Option::Some(Seq::empty())
        } else if j == 0 {
            Option::Some(seq!['/'])
        } else {
            Option::Some(p.take(j))
        }
    }
}

/// Replace the last path segment by `n` (which may itself bring several
/// segments along).
pub open spec fn spec_with_file_name(p: Seq<char>, n: Seq<char>) -> Seq<char> {
    match spec_parent(p) {
        Option::Some(par) => spec_join(par, n),
        Option::None => spec_join(p, n),
    }
}

/// The largest index below `i` holding a dot, or -1.
pub open spec fn last_dot_before(p: Seq<char>, i: int) -> int
    decreases i,
{
    if i <= 0 {
        -1
    } else if p[i - 1] == '.' {
        i - 1
    } else {
        last_dot_before(p, i - 1)
    }
}

/// The index of the dot that begins the path's extension, or -1: the last
/// dot after the last separator, not in the file name's first position.
pub open spec fn ext_dot(p: Seq<char>) -> int {
    let d = last_dot_before(p, p.len() as int);
    if d > last_sep(p) + 1 {
        d
    } else {
        -1
    }
}

/// The extension of a path: what follows the last dot of its file name,
/// unless that dot starts the file name.
pub open spec fn spec_extension(p: Seq<char>) -> Option<Seq<char>> {
    let d = ext_dot(p);
    if d == -1 {
        Option::None
    } else {
        Option::Some(p.skip(d + 1))
    }
}

/// Find the last separator of a character vector, if any.
fn last_sep_index(v: &Vec<char>) -> (r: Option<usize>)
    ensures
        r is None ==> last_sep(v@) == -1,
        r matches Some(j) ==> 0 <= j < v@.len() && last_sep(v@) == j && v@[j as int] == '/',
{
    let n = v.len();
    let mut i: usize = n;
    while i > 0
        invariant
            0 <= i <= n,
            n == v@.len(),
            last_sep(v@) == last_sep_before(v@, i as int),
        decreases i,
    {
        if v[i - 1] == '/' {
            return Some(i - 1);
        }
        i = i - 1;
    }
    None
}

/// Find the dot that begins the extension, if any.
pub(crate) fn ext_dot_index(v: &Vec<char>) -> (r: Option<usize>)
    ensures
        r is None ==> ext_dot(v@) == -1,
        r matches Some(j) ==> 0 <= j < v@.len() && ext_dot(v@) == j,
{
    let n = v.len();
    let mut i: usize = n;
    let mut dot: Option<usize> = None;
    while i > 0
        invariant
            0 <= i <= n,
            n == v@.len(),
            dot is None ==> last_dot_before(v@, n as int) == last_dot_before(v@, i as int),
            dot matches Some(j) ==> 0 <= j < n && last_dot_before(v@, n as int) == j && i == 0,
        decreases i,
    {
        if v[i - 1] == '.' {
            proof {
                assert(last_dot_before(v@, i as int) == i as int - 1);
            }
            dot = Some(i - 1);
            i = 0;
        } else {
            i = i - 1;
        }
    }
    match dot {
        Some(d) => {
            // the dot must lie strictly after the last separator's successor
            let sep = last_sep_index(v);
            match sep {
                Some(s) => {
                    if d > s + 1 {
                        Some(d)
                    } else {
                        None
                    }
                },
                None => {
                    if d > 0 {
                        Some(d)
                    } else {
                        None
                    }
                },
            }
        },
        None => None,
    }
}

/// Join two paths as the standard library joins them.
pub fn path_join(a: &str, b: &str) -> (r: String)
    ensures
        r@ == spec_join(a@, b@),
{
    let bv = str_to_chars(b);
    if bv.len() > 0 && bv[0] == '/' {
        return String::from_str(b);
    }
    let av = str_to_chars(a);
    if av.len() == 0 {
        return String::from_str(b);
    }
    let mut out = av;
    if out[out.len() - 1] != '/' {
        out.push('/');
        proof {
            assert(out@ =~= a@ + seq!['/']);
        }
    }
    append_chars(&mut out, &bv);
    proof {
        if a@[a@.len() - 1] == '/' {
            assert(out@ =~= a@ + b@);
        } else {
            assert(out@ =~= a@ + seq!['/'] + b@);
        }
    }
    chars_to_string(&out)
}

/// The parent of a path, shorter than the path itself whenever it exists.
pub fn path_parent(p: &str) -> (r: Option<String>)
    ensures
        r is Some <==> spec_parent(p@) is Some,
        r matches Some(s) ==> spec_parent(p@) == Option::Some(s@) && s@.len() < p@.len(),
{
    let v = str_to_chars(p);
    let n = v.len();
    if n == 0 {
        return None;
    }
    if n == 1 && v[0] == '/' {
        proof {
            assert(p@ =~= seq!['/']);
        }
        return None;
    }
    proof {
        assert(p@ != seq!['/']);
    }
    match last_sep_index(&v) {
        None => Some(String::new()),
        Some(j) => {
            if j == 0 {
                let mut root: Vec<char> = Vec::new();
                root.push('/');
                proof {
                    assert(root@ =~= seq!['/']);
                }
                Some(chars_to_string(&root))
            } else {
                let mut out: Vec<char> = Vec::new();
                let mut k: usize = 0;
                while k < j
                    invariant
                        0 <= k <= j < n,
                        n == v@.len(),
                        out@ == v@.subrange(0, k as int),
                    decreases j - k,
                {
                    out.push(v[k]);
                    k += 1;
                    proof {
                        assert(out@ =~= v@.subrange(0, k as int));
                    }
                }
                Some(chars_to_string(&out))
            }
        },
    }
}

/// Replace the last path segment by `n`.
pub fn path_with_file_name(p: &str, n: &str) -> (r: String)
    ensures
        r@ == spec_with_file_name(p@, n@),
{
    match path_parent(p) {
        Some(par) => path_join(par.as_str(), n),
        None => path_join(p, n),
    }
}

/// The extension of a path, if its file name has one.
pub fn path_extension(p: &str) -> (r: Option<String>)
    ensures
        r is Some <==> spec_extension(p@) is Some,
        r matches Some(e) ==> spec_extension(p@) == Option::Some(e@),
{
    let v = str_to_chars(p);
    match ext_dot_index(&v) {
        None => None,
        Some(d) => {
            let n = v.len();
            proof {
                assert(d < n);
            }
            let mut out: Vec<char> = Vec::new();
            let mut k: usize = d + 1;
            while k < v.len()
                invariant
                    d + 1 <= k <= v@.len(),
                    out@ == v@.subrange(d + 1, k as int),
                decreases v@.len() - k,
            {
                out.push(v[k]);
                k += 1;
                proof {
                    assert(out@ =~= v@.subrange(d + 1, k as int));
                }
            }
            proof {
                assert(out@ =~= p@.skip(d + 1));
            }
            Some(chars_to_string(&out))
        },
    }
}

/// A path with its leading separators removed.
pub open spec fn spec_trim_leading_seps(s: Seq<char>) -> Seq<char>
    decreases s.len(),
{
    if s.len() > 0 && s[0] == '/' {
        spec_trim_leading_seps(s.skip(1))
    } else {
        s
    }
}

/// Remove the leading separators of a path.
pub fn trim_leading_seps(s: &str) -> (r: String)
    ensures
        r@ == spec_trim_leading_seps(s@),
{
    let v = str_to_chars(s);
    let n = v.len();
    let mut i: usize = 0;
    proof {
        assert(v@.skip(0) =~= v@);
    }
    while i < n && v[i] == '/'
        invariant
            0 <= i <= n,
            n == v@.len(),
            v@ == s@,
            spec_trim_leading_seps(s@) == spec_trim_leading_seps(v@.skip(i as int)),
        decreases n - i,
    {
        proof {
            assert(v@.skip(i as int)[0] == v@[i as int]);
            assert(v@.skip(i as int).skip(1) =~= v@.skip(i as int + 1));
        }
        i += 1;
    }
    proof {
        if i == n {
            assert(v@.skip(i as int) =~= Seq::<char>::empty());
        }
        assert(spec_trim_leading_seps(v@.skip(i as int)) == v@.skip(i as int));
    }
    let out = sub_chars(&v, i, n);
    proof {
        assert(out@ =~= v@.skip(i as int));
    }
    chars_to_string(&out)
}

/// Component-wise prefix, as the standard path type tests it: the candidate
/// prefix must end exactly at a segment boundary of the longer path.
pub open spec fn spec_path_starts_with(p: Seq<char>, prefix: Seq<char>) -> bool {
    if prefix.len() == 0 {
        true
    } else if p == prefix {
        true
    } else {
        p.len() > prefix.len() && p.take(prefix.len() as int) == prefix && (prefix[prefix.len()
            - 1] == '/' || p[prefix.len() as int] == '/')
    }
}

/// Whether `prefix` is a component-wise prefix of `p`.
pub fn path_starts_with(p: &str, prefix: &str) -> (r: bool)
    ensures
        r == spec_path_starts_with(p@, prefix@),
{
    let pv = str_to_chars(p);
    let fv = str_to_chars(prefix);
    let m = fv.len();
    if m == 0 {
        return true;
    }
    if pv.len() < m {
        return false;
    }
    if !chars_eq_at(&pv, 0, &fv) {
        proof {
            assert(pv@.subrange(0, m as int) == pv@.take(m as int));
            if p@ == prefix@ {
                assert(pv@.take(m as int) =~= fv@);
            }
        }
        return false;
    }
    proof {
        assert(pv@.subrange(0, m as int) == pv@.take(m as int));
    }
    if pv.len() == m {
        proof {
            assert(p@ =~= p@.take(m as int));
        }
        return true;
    }
    if fv[m - 1] == '/' {
        return true;
    }
    pv[m] == '/'
}

/// A separator index is a real index, and holds a separator.
proof fn lemma_last_sep_before_props(p: Seq<char>, i: int)
    ensures
        last_sep_before(p, i) >= -1,
        i >= 0 ==> last_sep_before(p, i) < i,
        last_sep_before(p, i) >= 0 ==> last_sep_before(p, i) < i && p[last_sep_before(p, i)]
            == '/',
    decreases i,
{
    if i <= 0 {
    } else if p[i - 1] == '/' {
    } else {
        lemma_last_sep_before_props(p, i - 1);
    }
}

/// A path extends its own parent component-wise.
pub proof fn lemma_parent_prefix(p: Seq<char>, par: Seq<char>)
    requires
        spec_parent(p) == Option::Some(par),
    ensures
        spec_path_starts_with(p, par),
{
    lemma_last_sep_before_props(p, p.len() as int);
    let j = last_sep(p);
    assert(j == last_sep_before(p, p.len() as int));
    assert(j >= 0 ==> j < p.len() && p[j] == '/');
    if j == -1 {
        assert(par.len() == 0);
    } else if j == 0 {
        assert(p[0] == '/');
        assert(p != seq!['/']);
        if p.len() == 1 {
            assert(p =~= seq!['/']);
        }
        assert(p.len() > 1);
        assert(par == seq!['/']);
        assert(p.take(1) =~= seq!['/']);
        assert(par[par.len() - 1] == '/');
    } else {
        assert(par == p.take(j));
        assert(p.len() > j);
        assert(p[j] == '/');
        if p == par {
            assert(p.len() == par.len());
        }
    }
}

/// Component-wise prefixing is transitive.
pub proof fn lemma_starts_with_trans(x: Seq<char>, d: Seq<char>, e: Seq<char>)
    requires
        spec_path_starts_with(x, d),
        spec_path_starts_with(d, e),
    ensures
        spec_path_starts_with(x, e),
{
    if e.len() == 0 {
    } else if d == e {
    } else if x == d {
    } else {
        // d extends e at a boundary, and x extends d at a boundary
        assert(d.len() > e.len() && d.take(e.len() as int) == e);
        assert(x.len() > d.len() && x.take(d.len() as int) == d);
        if x == e {
            assert(x.len() == e.len());
        }
        assert(x.take(e.len() as int) =~= e) by {
            assert(forall|t: int|
                0 <= t < e.len() ==> x.take(d.len() as int)[t] == #[trigger] x[t]);
            assert(forall|t: int| 0 <= t < e.len() ==> d.take(e.len() as int)[t] == #[trigger] d[t]);
        }
        assert(e[e.len() - 1] == '/' || x[e.len() as int] == '/') by {
            if e[e.len() - 1] != '/' {
                assert(d[e.len() as int] == '/');
                assert(x.take(d.len() as int)[e.len() as int] == x[e.len() as int]);
            }
        }
    }
}

/// Every backslash turned into a forward slash.
pub open spec fn spec_forward_slashes(s: Seq<char>) -> Seq<char> {
    Seq::new(
        s.len(),
        |i: int|
            if s[i] == '\\' {
                '/'
            } else {
                s[i]
            },
    )
}

/// Turn every backslash into a forward slash.
pub fn to_forward_slashes(s: &str) -> (r: String)
    ensures
        r@ == spec_forward_slashes(s@),
{
    let v = str_to_chars(s);
    let n = v.len();
    let mut out: Vec<char> = Vec::new();
    let mut i: usize = 0;
    while i < n
        invariant
            0 <= i <= n,
            n == v@.len(),
            v@ == s@,
            out@ == spec_forward_slashes(s@).take(i as int),
        decreases n - i,
    {
        if v[i] == '\\' {
            out.push('/');
        } else {
            out.push(v[i]);
        }
        i += 1;
        proof {
            assert(out@ =~= spec_forward_slashes(s@).take(i as int));
        }
    }
    proof {
        assert(spec_forward_slashes(s@).take(n as int) =~= spec_forward_slashes(s@));
    }
    chars_to_string(&out)
}

/// Slash conversion leaves no backslash behind: since it is the last step
/// of every specifier rewrite, a rewritten specifier always uses forward
/// slashes, whatever the host's path conventions put into the path.
pub proof fn lemma_forward_slashes_free_of_backslashes(s: Seq<char>)
    ensures
        forall|i: int|
            0 <= i < spec_forward_slashes(s).len() ==> spec_forward_slashes(s)[i] != '\\',
{
}

/// Whether `s` ends with `suf`.
pub open spec fn spec_ends_with(s: Seq<char>, suf: Seq<char>) -> bool {
    s.len() >= suf.len() && s.skip(s.len() - suf.len()) == suf
}

/// Whether `s` ends with the suffix `suf`.
pub fn ends_with_str(s: &str, suf: &str) -> (r: bool)
    ensures
        r == spec_ends_with(s@, suf@),
{
    let v = str_to_chars(s);
    let sv = str_to_chars(suf);
    let n = v.len();
    let m = sv.len();
    if n < m {
        return false;
    }
    let r = chars_eq_at(&v, n - m, &sv);
    proof {
        assert(v@.subrange(n - m, n - m + m as int) =~= s@.skip(s@.len() - suf@.len()));
    }
    r
}

} // verus!
