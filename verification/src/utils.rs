//! Path normalization and relative-path computation: collapsing `.` and
//! `..` segments without consulting the filesystem, the proof that doing it
//! twice changes nothing, and the walk from one directory to another that
//! the specifier rewrite uses.

use crate::seg::{
    all_good, all_sep_free, dot_seg, dotdot_seg, good_seg, join_segs, join_tail,
    lemma_join_push, lemma_norm_onto_all_good, lemma_norm_onto_concat, lemma_norm_onto_good,
    lemma_norm_onto_push, lemma_split_join, lemma_split_sep_free, norm_onto, norm_segs, norm_step,
    sep_free, split_from, split_path,
};
use crate::text::{chars_to_string, str_to_chars};
use vstd::prelude::*;

verus! {

/// The views of a vector of character vectors.
pub open spec fn seg_views(v: Seq<Vec<char>>) -> Seq<Seq<char>> {
    v.map_values(|x: Vec<char>| x@)
}

/// Whether a path is absolute: it starts with a separator.
pub open spec fn spec_is_abs(s: Seq<char>) -> bool {
    s.len() > 0 && s[0] == '/'
}

/// What normalization returns: the path's surviving segments joined back
/// together, with a leading separator kept if and only if the path had one.
pub open spec fn spec_normalize(s: Seq<char>) -> Seq<char> {
    let out = norm_segs(split_path(s));
    if spec_is_abs(s) {
        seq!['/'] + join_segs(out)
    } else {
        join_segs(out)
    }
}

/// Copy a vector of characters.
fn copy_chars(v: &Vec<char>) -> (r: Vec<char>)
    ensures
        r@ == v@,
{
    let mut r: Vec<char> = Vec::new();
    let mut i: usize = 0;
    while i < v.len()
        invariant
            0 <= i <= v@.len(),
            r@ == v@.subrange(0, i as int),
        decreases v@.len() - i,
    {
        r.push(v[i]);
        i += 1;
        proof {
            assert(r@ =~= v@.subrange(0, i as int));
        }
    }
    proof {
        assert(r@ =~= v@);
    }
    r
}

/// Whether a segment is exactly `.`.
fn is_dot(g: &Vec<char>) -> (r: bool)
    ensures
        r == (g@ == dot_seg()),
{
    let r = g.len() == 1 && g[0] == '.';
    proof {
        if r {
            assert(g@ =~= dot_seg());
        } else if g@ == dot_seg() {
            assert(g@.len() == 1 && g@[0] == '.');
        }
    }
    r
}

/// Whether a segment is exactly `..`.
fn is_dotdot(g: &Vec<char>) -> (r: bool)
    ensures
        r == (g@ == dotdot_seg()),
{
    let r = g.len() == 2 && g[0] == '.' && g[1] == '.';
    proof {
        if r {
            assert(g@ =~= dotdot_seg());
        } else if g@ == dotdot_seg() {
            assert(g@.len() == 2 && g@[0] == '.' && g@[1] == '.');
        }
    }
    r
}

/// Apply one raw segment to the stack of kept segments.
fn apply_step(stack: &mut Vec<Vec<char>>, g: &Vec<char>)
    ensures
        seg_views(final(stack)@) == norm_step(seg_views(old(stack)@), g@),
{
    if g.len() == 0 {
    } else if is_dot(g) {
    } else if is_dotdot(g) {
        if stack.len() > 0 {
            stack.pop();
            proof {
                assert(seg_views(stack@) =~= seg_views(old(stack)@).drop_last());
            }
        }
    } else {
        let copy = copy_chars(g);
        stack.push(copy);
        proof {
            assert(seg_views(stack@) =~= seg_views(old(stack)@).push(g@));
        }
    }
}

/// The `.`/`..`-collapsed segments of a path, as character vectors.
pub(crate) fn norm_segments(path: &str) -> (stack: Vec<Vec<char>>)
    ensures
        seg_views(stack@) == norm_segs(split_path(path@)),
{
    let chars = str_to_chars(path);
    let n = chars.len();
    let mut stack: Vec<Vec<char>> = Vec::new();
    let mut cur: Vec<char> = Vec::new();
    let mut i: usize = 0;
    proof {
        assert(chars@.skip(0) =~= chars@);
        assert(seg_views(stack@) =~= Seq::<Seq<char>>::empty());
    }
    while i < n
        invariant
            0 <= i <= n,
            n == chars@.len(),
            chars@ == path@,
            norm_onto(seg_views(stack@), split_from(chars@.skip(i as int), cur@)) == norm_segs(
                split_path(path@),
            ),
        decreases n - i,
    {
        let c = chars[i];
        proof {
            assert(chars@.skip(i as int)[0] == chars@[i as int]);
            assert(chars@.skip(i as int).skip(1) =~= chars@.skip(i as int + 1));
        }
        if c == '/' {
            proof {
                lemma_norm_onto_concat(
                    seg_views(stack@),
                    seq![cur@],
                    split_from(chars@.skip(i as int + 1), Seq::empty()),
                );
                assert(seq![cur@] =~= Seq::<Seq<char>>::empty().push(cur@));
                lemma_norm_onto_push(seg_views(stack@), Seq::<Seq<char>>::empty(), cur@);
                assert(norm_onto(seg_views(stack@), Seq::<Seq<char>>::empty()) == seg_views(
                    stack@,
                ));
            }
            apply_step(&mut stack, &cur);
            cur.clear();
        } else {
            cur.push(c);
        }
        i += 1;
    }
    proof {
        assert(chars@.skip(n as int) =~= Seq::<char>::empty());
        assert(norm_onto(seg_views(stack@), seq![cur@]) == norm_step(seg_views(stack@), cur@)) by {
            assert(seq![cur@] =~= Seq::<Seq<char>>::empty().push(cur@));
            lemma_norm_onto_push(seg_views(stack@), Seq::<Seq<char>>::empty(), cur@);
            assert(norm_onto(seg_views(stack@), Seq::<Seq<char>>::empty()) == seg_views(stack@));
        }
    }
    apply_step(&mut stack, &cur);
    stack
}

/// Append the segments of `segs` from index `from` on, joined with `/`.
pub(crate) fn append_joined(out: &mut Vec<char>, segs: &Vec<Vec<char>>, from: usize)
    requires
        from <= segs@.len(),
    ensures
        final(out)@ == old(out)@ + join_segs(seg_views(segs@).skip(from as int)),
{
    let ghost views = seg_views(segs@).skip(from as int);
    proof {
        assert(views.take(0) =~= Seq::<Seq<char>>::empty());
        assert(out@ =~= old(out)@ + join_segs(views.take(0)));
    }
    let mut j: usize = from;
    while j < segs.len()
        invariant
            from <= j <= segs@.len(),
            views == seg_views(segs@).skip(from as int),
            out@ == old(out)@ + join_segs(views.take(j - from)),
        decreases segs@.len() - j,
    {
        let ghost mid: Seq<char> = if j > from {
            seq!['/']
        } else {
            Seq::<char>::empty()
        };
        if j > from {
            out.push('/');
        }
        proof {
            assert(out@ =~= old(out)@ + join_segs(views.take(j - from)) + mid);
        }
        let seg_len = segs[j].len();
        let mut k: usize = 0;
        while k < seg_len
            invariant
                0 <= k <= seg_len,
                from <= j < segs@.len(),
                seg_len == segs@[j as int]@.len(),
                out@ == old(out)@ + join_segs(views.take(j - from)) + mid + segs@[
                    j as int
                ]@.subrange(0, k as int),
                views == seg_views(segs@).skip(from as int),
                mid == (if j > from {
                    seq!['/']
                } else {
                    Seq::<char>::empty()
                }),
            decreases seg_len - k,
        {
            out.push(segs[j][k]);
            k += 1;
            proof {
                assert(out@ =~= old(out)@ + join_segs(views.take(j - from)) + mid + segs@[
                    j as int
                ]@.subrange(0, k as int));
            }
        }
        proof {
            let t = j - from;
            let g = views[t as int];
            assert(g == segs@[j as int]@);
            assert(segs@[j as int]@.subrange(0, seg_len as int) =~= g);
            lemma_join_push(views.take(t as int), g);
            assert(views.take(t as int + 1) =~= views.take(t as int).push(g));
            if j == from {
                assert(views.take(0).len() == 0);
                assert(join_segs(views.take(1)) == g);
                assert(old(out)@ + join_segs(views.take(0)) + mid + g =~= old(out)@ + g);
                assert(out@ =~= old(out)@ + join_segs(views.take(1)));
            } else {
                assert(join_segs(views.take(t as int + 1)) == join_segs(views.take(t as int))
                    + seq!['/'] + g);
                assert(old(out)@ + join_segs(views.take(t as int)) + mid + g =~= old(out)@ + (
                join_segs(views.take(t as int)) + seq!['/'] + g));
            }
        }
        j += 1;
    }
    proof {
        assert(views.take(segs@.len() - from) =~= views);
    }
}

/// Collapse `.` and `..` segments of a path without touching the filesystem.
/// Repeated separators and trailing separators disappear with the empty
/// segments they delimit; a `..` that has nothing left to pop is dropped.
pub fn normalize_path(path: &str) -> (r: String)
    ensures
        r@ == spec_normalize(path@),
{
    let stack = norm_segments(path);
    let is_absolute = path.unicode_len() > 0 && path.get_char(0) == '/';
    let ghost prefix: Seq<char> = if spec_is_abs(path@) {
        seq!['/']
    } else {
        Seq::<char>::empty()
    };
    let mut out: Vec<char> = Vec::new();
    if is_absolute {
        out.push('/');
    }
    proof {
        assert(out@ =~= prefix);
    }
    append_joined(&mut out, &stack, 0);
    proof {
        assert(seg_views(stack@).skip(0) =~= seg_views(stack@));
        assert(out@ =~= spec_normalize(path@));
    }
    chars_to_string(&out)
}

/// How many leading segments two segment sequences share.
pub open spec fn common_prefix_len(a: Seq<Seq<char>>, b: Seq<Seq<char>>) -> int
    decreases a.len(),
{
    if a.len() == 0 || b.len() == 0 {
        0
    } else if a[0] == b[0] {
        1 + common_prefix_len(a.skip(1), b.skip(1))
    } else {
        0
    }
}

/// `n` steps up (`..`), then the remaining segments.
pub open spec fn spec_updots(n: int, rest: Seq<Seq<char>>) -> Seq<char>
    decreases n,
{
    if n <= 0 {
        join_segs(rest)
    } else if n == 1 && rest.len() == 0 {
        seq!['.', '.']
    } else {
        seq!['.', '.', '/'] + spec_updots(n - 1, rest)
    }
}

/// The relative path that reaches `p` from the directory `base`: beyond
/// their common segments, one `..` for each remaining segment of `base`,
/// then the remaining segments of `p`; a path that needs no `..` steps is
/// `./`-prefixed so it reads as an explicit relative reference.
pub open spec fn spec_relative_to(base: Seq<char>, p: Seq<char>) -> Seq<char> {
    let bs = norm_segs(split_path(base));
    let ps = norm_segs(split_path(p));
    let c = common_prefix_len(bs, ps);
    let ups = bs.len() - c;
    let rest = ps.skip(c);
    if ups == 0 {
        if rest.len() == 0 {
            seq!['.']
        } else {
            seq!['.', '/'] + join_segs(rest)
        }
    } else {
        spec_updots(ups, rest)
    }
}

/// Whether two segments hold the same characters.
fn seg_eq(a: &Vec<char>, b: &Vec<char>) -> (r: bool)
    ensures
        r == (a@ == b@),
{
    if a.len() != b.len() {
        proof {
            if a@ == b@ {
                assert(a@.len() == b@.len());
            }
        }
        return false;
    }
    let r = crate::text::chars_eq_at(a, 0, b);
    proof {
        assert(a@.subrange(0, b@.len() as int) =~= a@);
    }
    r
}

/// The number of leading segments the two vectors share.
fn common_prefix(a: &Vec<Vec<char>>, b: &Vec<Vec<char>>) -> (c: usize)
    ensures
        c == common_prefix_len(seg_views(a@), seg_views(b@)),
        c <= a@.len(),
        c <= b@.len(),
{
    let ghost av = seg_views(a@);
    let ghost bv = seg_views(b@);
    let mut i: usize = 0;
    let mut stopped = false;
    proof {
        assert(av.skip(0) =~= av);
        assert(bv.skip(0) =~= bv);
    }
    while !stopped
        invariant
            0 <= i <= av.len(),
            0 <= i <= bv.len(),
            av == seg_views(a@),
            bv == seg_views(b@),
            !stopped ==> common_prefix_len(av, bv) == i + common_prefix_len(
                av.skip(i as int),
                bv.skip(i as int),
            ),
            stopped ==> common_prefix_len(av, bv) == i,
        decreases av.len() - i + (if stopped {
            0int
        } else {
            1int
        }),
    {
        if i < a.len() && i < b.len() {
            if seg_eq(&a[i], &b[i]) {
                proof {
                    let ra = av.skip(i as int);
                    let rb = bv.skip(i as int);
                    assert(ra[0] == av[i as int] && rb[0] == bv[i as int]);
                    assert(ra[0] == rb[0]);
                    assert(common_prefix_len(ra, rb) == 1 + common_prefix_len(
                        ra.skip(1),
                        rb.skip(1),
                    ));
                    assert(ra.skip(1) =~= av.skip(i as int + 1));
                    assert(rb.skip(1) =~= bv.skip(i as int + 1));
                }
                i += 1;
            } else {
                proof {
                    let ra = av.skip(i as int);
                    let rb = bv.skip(i as int);
                    assert(ra[0] == av[i as int] && rb[0] == bv[i as int]);
                    assert(common_prefix_len(ra, rb) == 0);
                }
                stopped = true;
            }
        } else {
            proof {
                let ra = av.skip(i as int);
                let rb = bv.skip(i as int);
                assert(ra.len() == 0 || rb.len() == 0);
                assert(common_prefix_len(ra, rb) == 0);
            }
            stopped = true;
        }
    }
    i
}

/// The relative path that reaches `p` from the directory `base`.
pub fn relative_to(base: &str, p: &str) -> (r: String)
    ensures
        r@ == spec_relative_to(base@, p@),
{
    let bs = norm_segments(base);
    let ps = norm_segments(p);
    let c = common_prefix(&bs, &ps);
    let ghost bviews = seg_views(bs@);
    let ghost pviews = seg_views(ps@);
    let ghost restv = pviews.skip(c as int);
    let ups = bs.len() - c;
    let rest_len = ps.len() - c;
    proof {
        assert(restv.len() == rest_len);
    }
    let mut out: Vec<char> = Vec::new();
    if ups == 0 {
        if rest_len == 0 {
            out.push('.');
            proof {
                assert(out@ =~= seq!['.']);
            }
        } else {
            out.push('.');
            out.push('/');
            proof {
                assert(out@ =~= seq!['.', '/']);
            }
            append_joined(&mut out, &ps, c);
            proof {
                assert(out@ =~= seq!['.', '/'] + join_segs(restv));
            }
        }
    } else {
        let mut k: usize = 0;
        proof {
            assert(Seq::<char>::empty() + spec_updots(ups as int, restv) =~= spec_updots(
                ups as int,
                restv,
            ));
        }
        while k < ups
            invariant
                0 <= k <= ups,
                ups == bviews.len() - c,
                c <= pviews.len(),
                restv == pviews.skip(c as int),
                restv.len() == rest_len,
                spec_updots(ups as int, restv) == out@ + spec_updots(ups - k, restv),
            decreases ups - k,
        {
            let ghost out0 = out@;
            out.push('.');
            out.push('.');
            if k + 1 < ups || rest_len > 0 {
                out.push('/');
                proof {
                    assert(spec_updots(ups - k, restv) == seq!['.', '.', '/'] + spec_updots(
                        ups - k - 1,
                        restv,
                    ));
                    assert(out@ =~= out0 + seq!['.', '.', '/']);
                    assert(out0 + (seq!['.', '.', '/'] + spec_updots(ups - k - 1, restv)) =~= out@
                        + spec_updots(ups - k - 1, restv));
                }
            } else {
                proof {
                    assert(ups - k == 1 && restv.len() == 0);
                    assert(spec_updots(ups - k, restv) == seq!['.', '.']);
                    assert(out@ =~= out0 + seq!['.', '.']);
                    assert(spec_updots(0, restv) == join_segs(restv));
                    assert(join_segs(restv) =~= Seq::<char>::empty());
                    assert(out0 + seq!['.', '.'] =~= out@ + Seq::<char>::empty());
                }
            }
            k += 1;
        }
        proof {
            assert(spec_updots(0, restv) == join_segs(restv));
        }
        append_joined(&mut out, &ps, c);
    }
    proof {
        assert(out@ =~= spec_relative_to(base@, p@));
    }
    chars_to_string(&out)
}

/// Normalizing an already-normalized path changes nothing: the surviving
/// segments of a normalized path are fully normal, so splitting and folding
/// them a second time reproduces them exactly.
pub proof fn lemma_normalize_idempotent(p: Seq<char>)
    ensures
        spec_normalize(spec_normalize(p)) == spec_normalize(p),
{
    let segs = split_path(p);
    let out = norm_segs(segs);
    let t = spec_normalize(p);
    lemma_split_sep_free(p, Seq::empty());
    assert(all_good(Seq::<Seq<char>>::empty()));
    lemma_norm_onto_good(Seq::<Seq<char>>::empty(), segs);
    assert(all_good(out));
    let e = Seq::<char>::empty();
    if out.len() == 0 {
        assert(join_segs(out) == e);
        if spec_is_abs(p) {
            assert(t =~= seq!['/']);
            assert(seq!['/'][0] == '/');
            assert(seq!['/'].skip(1) =~= e);
            assert(split_from(e, e) == seq![e]);
            assert(split_path(seq!['/']) == seq![e] + seq![e]);
            assert(seq![e] + seq![e] =~= seq![e, e]);
            assert(norm_segs(seq![e, e]) == Seq::<Seq<char>>::empty()) by {
                assert(seq![e] =~= Seq::<Seq<char>>::empty().push(e));
                lemma_norm_onto_push(Seq::<Seq<char>>::empty(), Seq::<Seq<char>>::empty(), e);
                assert(norm_onto(Seq::<Seq<char>>::empty(), seq![e]) == Seq::<Seq<char>>::empty());
                assert(seq![e, e] =~= seq![e].push(e));
                lemma_norm_onto_push(Seq::<Seq<char>>::empty(), seq![e], e);
                assert(norm_step(Seq::<Seq<char>>::empty(), e) == Seq::<Seq<char>>::empty());
            }
            assert(spec_is_abs(t));
            assert(spec_normalize(t) =~= seq!['/'] + e);
            assert(seq!['/'] + e =~= t);
        } else {
            assert(t =~= e);
            assert(split_path(e) == seq![e]);
            assert(norm_segs(seq![e]) == Seq::<Seq<char>>::empty()) by {
                assert(seq![e] =~= Seq::<Seq<char>>::empty().push(e));
                lemma_norm_onto_push(Seq::<Seq<char>>::empty(), Seq::<Seq<char>>::empty(), e);
                assert(norm_step(Seq::<Seq<char>>::empty(), e) == Seq::<Seq<char>>::empty());
            }
            assert(!spec_is_abs(t));
            assert(spec_normalize(t) =~= e);
        }
    } else {
        assert(all_sep_free(out)) by {
            assert(forall|i: int| 0 <= i < out.len() ==> good_seg(#[trigger] out[i]));
            assert forall|i: int| 0 <= i < out.len() implies sep_free(#[trigger] out[i]) by {
                assert(good_seg(out[i]));
            }
        }
        lemma_split_join(out);
        let jn = join_segs(out);
        lemma_norm_onto_all_good(Seq::<Seq<char>>::empty(), out);
        assert(Seq::<Seq<char>>::empty() + out =~= out);
        if spec_is_abs(p) {
            assert(t == seq!['/'] + jn);
            assert(t[0] == '/');
            assert(spec_is_abs(t));
            assert(t.skip(1) =~= jn);
            assert(split_path(t) == seq![e] + split_from(jn, e));
            assert(split_from(jn, e) == out);
            lemma_norm_onto_concat(Seq::<Seq<char>>::empty(), seq![e], out);
            assert(norm_onto(Seq::<Seq<char>>::empty(), seq![e]) == Seq::<Seq<char>>::empty())
                by {
                assert(seq![e] =~= Seq::<Seq<char>>::empty().push(e));
                lemma_norm_onto_push(Seq::<Seq<char>>::empty(), Seq::<Seq<char>>::empty(), e);
                assert(norm_step(Seq::<Seq<char>>::empty(), e) == Seq::<Seq<char>>::empty());
            }
            assert(norm_segs(split_path(t)) == out);
            assert(spec_normalize(t) == t);
        } else {
            assert(t == jn);
            assert(split_path(t) == out);
            assert(norm_segs(split_path(t)) == out);
            assert(good_seg(out[0]));
            assert(t == out[0] + join_tail(out.skip(1)));
            assert(t[0] == out[0][0]);
            assert(out[0][0] != '/') by {
                if out[0][0] == '/' {
                    assert(out[0].contains('/'));
                }
            }
            assert(!spec_is_abs(t));
            assert(spec_normalize(t) == t);
        }
    }
}

} // verus!
