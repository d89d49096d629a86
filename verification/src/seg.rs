//! The mathematical model of path normalization.
//!
//! A path is a sequence of characters; splitting it on `/` yields raw
//! segments, and normalization folds those segments onto a stack, dropping
//! empty and `.` segments and letting `..` pop the segment below it.  The
//! lemmas here culminate in the facts needed to show that normalization is
//! idempotent: splitting is a left inverse of joining, and a stack of fully
//! normal segments is a fixpoint of the fold.

use vstd::prelude::*;

verus! {

/// The single-character segment `.`.
pub open spec fn dot_seg() -> Seq<char> {
    seq!['.']
}

/// The two-character segment `..`.
pub open spec fn dotdot_seg() -> Seq<char> {
    seq!['.', '.']
}

/// Split the characters of a path on `/`, with `cur` the segment read so far.
/// The result always holds at least one segment.
pub open spec fn split_from(s: Seq<char>, cur: Seq<char>) -> Seq<Seq<char>>
    decreases s.len(),
{
    if s.len() == 0 {
        seq![cur]
    } else if s[0] == '/' {
        seq![cur] + split_from(s.skip(1), Seq::empty())
    } else {
        split_from(s.skip(1), cur.push(s[0]))
    }
}

/// The raw segments of a path.
pub open spec fn split_path(s: Seq<char>) -> Seq<Seq<char>> {
    split_from(s, Seq::empty())
}

/// How one raw segment changes the stack of kept segments.
pub open spec fn norm_step(stack: Seq<Seq<char>>, g: Seq<char>) -> Seq<Seq<char>> {
    if g.len() == 0 || g == dot_seg() {
        stack
    } else if g == dotdot_seg() {
        if stack.len() == 0 {
            stack
        } else {
            stack.drop_last()
        }
    } else {
        stack.push(g)
    }
}

/// Fold a sequence of raw segments onto a stack, one `norm_step` at a time.
pub open spec fn norm_onto(stack: Seq<Seq<char>>, segs: Seq<Seq<char>>) -> Seq<Seq<char>>
    decreases segs.len(),
{
    if segs.len() == 0 {
        stack
    } else {
        norm_onto(norm_step(stack, segs[0]), segs.skip(1))
    }
}

/// The normalized segments of a raw segment sequence.
pub open spec fn norm_segs(segs: Seq<Seq<char>>) -> Seq<Seq<char>> {
    norm_onto(Seq::empty(), segs)
}

/// What stands between two joined segments.
pub open spec fn join_tail(segs: Seq<Seq<char>>) -> Seq<char>
    decreases segs.len(),
{
    if segs.len() == 0 {
        Seq::empty()
    } else {
        seq!['/'] + segs[0] + join_tail(segs.skip(1))
    }
}

/// Join segments with `/` separators, with nothing before the first segment.
pub open spec fn join_segs(segs: Seq<Seq<char>>) -> Seq<char>
    decreases segs.len(),
{
    if segs.len() == 0 {
        Seq::empty()
    } else {
        segs[0] + join_tail(segs.skip(1))
    }
}

/// A segment that survives normalization: nonempty, neither `.` nor `..`,
/// and free of separators.
pub open spec fn good_seg(g: Seq<char>) -> bool {
    g.len() > 0 && g != dot_seg() && g != dotdot_seg() && !g.contains('/')
}

pub open spec fn all_good(segs: Seq<Seq<char>>) -> bool {
    forall|i: int| 0 <= i < segs.len() ==> good_seg(#[trigger] segs[i])
}

pub open spec fn sep_free(g: Seq<char>) -> bool {
    !g.contains('/')
}

pub open spec fn all_sep_free(segs: Seq<Seq<char>>) -> bool {
    forall|i: int| 0 <= i < segs.len() ==> sep_free(#[trigger] segs[i])
}

/// Folding a concatenation folds the two parts in turn.
pub proof fn lemma_norm_onto_concat(stack: Seq<Seq<char>>, a: Seq<Seq<char>>, b: Seq<Seq<char>>)
    ensures
        norm_onto(stack, a + b) == norm_onto(norm_onto(stack, a), b),
    decreases a.len(),
{
    if a.len() == 0 {
        assert(a + b =~= b);
    } else {
        assert((a + b)[0] == a[0]);
        assert((a + b).skip(1) =~= a.skip(1) + b);
        lemma_norm_onto_concat(norm_step(stack, a[0]), a.skip(1), b);
    }
}

/// Folding one more segment is one more step.
pub proof fn lemma_norm_onto_push(stack: Seq<Seq<char>>, segs: Seq<Seq<char>>, g: Seq<char>)
    ensures
        norm_onto(stack, segs.push(g)) == norm_step(norm_onto(stack, segs), g),
{
    assert(segs.push(g) =~= segs + seq![g]);
    lemma_norm_onto_concat(stack, segs, seq![g]);
    let stack1 = norm_onto(stack, segs);
    assert(seq![g].skip(1) =~= Seq::<Seq<char>>::empty());
    assert(seq![g][0] == g);
    assert(norm_onto(stack1, seq![g]) == norm_onto(norm_step(stack1, g), seq![g].skip(1)));
    assert(norm_onto(norm_step(stack1, g), Seq::<Seq<char>>::empty()) == norm_step(stack1, g));
}

/// A sequence of fully normal segments is appended unchanged.
pub proof fn lemma_norm_onto_all_good(stack: Seq<Seq<char>>, segs: Seq<Seq<char>>)
    requires
        all_good(segs),
    ensures
        norm_onto(stack, segs) == stack + segs,
    decreases segs.len(),
{
    if segs.len() == 0 {
        assert(stack + segs =~= stack);
    } else {
        let g = segs[0];
        assert(good_seg(g));
        assert(norm_step(stack, g) == stack.push(g));
        assert(all_good(segs.skip(1)));
        lemma_norm_onto_all_good(stack.push(g), segs.skip(1));
        assert(stack.push(g) + segs.skip(1) =~= stack + segs);
    }
}

/// Folding separator-free segments onto a stack of normal segments leaves
/// only normal segments.
pub proof fn lemma_norm_onto_good(stack: Seq<Seq<char>>, segs: Seq<Seq<char>>)
    requires
        all_good(stack),
        all_sep_free(segs),
    ensures
        all_good(norm_onto(stack, segs)),
    decreases segs.len(),
{
    if segs.len() == 0 {
    } else {
        let g = segs[0];
        let stack1 = norm_step(stack, g);
        assert(all_good(stack1)) by {
            if g.len() == 0 || g == dot_seg() {
            } else if g == dotdot_seg() {
                assert forall|i: int| 0 <= i < stack1.len() implies good_seg(#[trigger] stack1[i]) by {
                    assert(stack1[i] == stack[i]);
                }
            } else {
                assert(sep_free(g));
                assert forall|i: int| 0 <= i < stack1.len() implies good_seg(#[trigger] stack1[i]) by {
                    if i < stack.len() {
                        assert(stack1[i] == stack[i]);
                    } else {
                        assert(stack1[i] == g);
                    }
                }
            }
        }
        assert(all_sep_free(segs.skip(1)));
        lemma_norm_onto_good(stack1, segs.skip(1));
    }
}

/// Splitting never puts a separator inside a segment.
pub proof fn lemma_split_sep_free(s: Seq<char>, cur: Seq<char>)
    requires
        sep_free(cur),
    ensures
        all_sep_free(split_from(s, cur)),
    decreases s.len(),
{
    if s.len() == 0 {
        assert forall|i: int| 0 <= i < split_from(s, cur).len() implies sep_free(
            #[trigger] split_from(s, cur)[i],
        ) by {
            assert(split_from(s, cur)[i] == cur);
        }
    } else if s[0] == '/' {
        lemma_split_sep_free(s.skip(1), Seq::empty());
        let rest = split_from(s.skip(1), Seq::empty());
        assert forall|i: int| 0 <= i < split_from(s, cur).len() implies sep_free(
            #[trigger] split_from(s, cur)[i],
        ) by {
            if i == 0 {
                assert(split_from(s, cur)[i] == cur);
            } else {
                assert(split_from(s, cur)[i] == rest[i - 1]);
            }
        }
    } else {
        assert(sep_free(cur.push(s[0]))) by {
            assert forall|i: int| 0 <= i < cur.push(s[0]).len() implies cur.push(s[0])[i] != '/' by {
                if i < cur.len() {
                    assert(cur.push(s[0])[i] == cur[i]);
                    assert(!cur.contains('/'));
                    if cur[i] == '/' {
                        assert(cur.contains('/'));
                    }
                } else {
                    assert(cur.push(s[0])[i] == s[0]);
                }
            }
            if cur.push(s[0]).contains('/') {
                let w = choose|w: int| 0 <= w < cur.push(s[0]).len() && cur.push(s[0])[w] == '/';
                assert(false);
            }
        }
        lemma_split_sep_free(s.skip(1), cur.push(s[0]));
    }
}

/// Reading a separator-free prefix only grows the current segment.
pub proof fn lemma_split_through(x: Seq<char>, rest: Seq<char>, cur: Seq<char>)
    requires
        sep_free(x),
    ensures
        split_from(x + rest, cur) == split_from(rest, cur + x),
    decreases x.len(),
{
    if x.len() == 0 {
        assert(x + rest =~= rest);
        assert(cur + x =~= cur);
    } else {
        assert((x + rest)[0] == x[0]);
        assert(x[0] != '/') by {
            if x[0] == '/' {
                assert(x.contains('/'));
            }
        }
        assert((x + rest).skip(1) =~= x.skip(1) + rest);
        assert(sep_free(x.skip(1))) by {
            assert forall|i: int| 0 <= i < x.skip(1).len() implies x.skip(1)[i] != '/' by {
                assert(x.skip(1)[i] == x[i + 1]);
                if x[i + 1] == '/' {
                    assert(x.contains('/'));
                }
            }
            if x.skip(1).contains('/') {
                let w = choose|w: int| 0 <= w < x.skip(1).len() && x.skip(1)[w] == '/';
                assert(false);
            }
        }
        lemma_split_through(x.skip(1), rest, cur.push(x[0]));
        assert(cur.push(x[0]) + x.skip(1) =~= cur + x);
    }
}

/// Splitting undoes joining, as long as no segment hides a separator.
pub proof fn lemma_split_join(segs: Seq<Seq<char>>)
    requires
        segs.len() >= 1,
        all_sep_free(segs),
    ensures
        split_path(join_segs(segs)) == segs,
    decreases segs.len(),
{
    let g0 = segs[0];
    assert(sep_free(g0));
    if segs.len() == 1 {
        assert(join_tail(segs.skip(1)) =~= Seq::<char>::empty());
        assert(join_segs(segs) =~= g0 + Seq::<char>::empty());
        assert(g0 + Seq::<char>::empty() =~= g0);
        lemma_split_through(g0, Seq::empty(), Seq::empty());
        assert(Seq::<char>::empty() + g0 =~= g0);
        assert(split_from(Seq::<char>::empty(), g0) =~= seq![g0]);
        assert(seq![g0] =~= segs);
    } else {
        let rest = segs.skip(1);
        let join1 = join_segs(rest);
        assert(join_tail(rest) =~= seq!['/'] + join1) by {
            assert(join_tail(rest) == seq!['/'] + rest[0] + join_tail(rest.skip(1)));
            assert(join1 == rest[0] + join_tail(rest.skip(1)));
            assert(seq!['/'] + rest[0] + join_tail(rest.skip(1)) =~= seq!['/'] + (rest[0]
                + join_tail(rest.skip(1))));
        }
        assert(join_segs(segs) =~= g0 + (seq!['/'] + join1));
        lemma_split_through(g0, seq!['/'] + join1, Seq::empty());
        assert(Seq::<char>::empty() + g0 =~= g0);
        assert(split_path(join_segs(segs)) == split_from(seq!['/'] + join1, g0));
        assert((seq!['/'] + join1)[0] == '/');
        assert((seq!['/'] + join1).skip(1) =~= join1);
        assert(split_from(seq!['/'] + join1, g0) == seq![g0] + split_from(join1, Seq::empty()));
        assert(all_sep_free(rest));
        lemma_split_join(rest);
        assert(seq![g0] + rest =~= segs);
    }
}

/// Appending one segment to a join appends a separator and the segment.
pub proof fn lemma_join_tail_push(segs: Seq<Seq<char>>, g: Seq<char>)
    ensures
        join_tail(segs.push(g)) == join_tail(segs) + seq!['/'] + g,
    decreases segs.len(),
{
    if segs.len() == 0 {
        assert(segs.push(g).skip(1) =~= Seq::<Seq<char>>::empty());
        assert(segs.push(g)[0] == g);
        assert(join_tail(Seq::<Seq<char>>::empty()) == Seq::<char>::empty());
        assert(join_tail(segs.push(g)) == seq!['/'] + g + Seq::<char>::empty());
        assert(seq!['/'] + g + Seq::<char>::empty() =~= Seq::<char>::empty() + seq!['/'] + g);
    } else {
        assert(segs.push(g)[0] == segs[0]);
        assert(segs.push(g).skip(1) =~= segs.skip(1).push(g));
        lemma_join_tail_push(segs.skip(1), g);
        assert(seq!['/'] + segs[0] + (join_tail(segs.skip(1)) + seq!['/'] + g) =~= (seq!['/']
            + segs[0] + join_tail(segs.skip(1))) + seq!['/'] + g);
    }
}

/// The same, stated for the full join.
pub proof fn lemma_join_push(segs: Seq<Seq<char>>, g: Seq<char>)
    ensures
        segs.len() == 0 ==> join_segs(segs.push(g)) == g,
        segs.len() > 0 ==> join_segs(segs.push(g)) == join_segs(segs) + seq!['/'] + g,
{
    if segs.len() == 0 {
        assert(segs.push(g).skip(1) =~= Seq::<Seq<char>>::empty());
        assert(join_segs(segs.push(g)) == g + Seq::<char>::empty());
        assert(g + Seq::<char>::empty() =~= g);
    } else {
        assert(segs.push(g)[0] == segs[0]);
        assert(segs.push(g).skip(1) =~= segs.skip(1).push(g));
        lemma_join_tail_push(segs.skip(1), g);
        assert(segs[0] + (join_tail(segs.skip(1)) + seq!['/'] + g) =~= (segs[0] + join_tail(
            segs.skip(1),
        )) + seq!['/'] + g);
    }
}

} // verus!
