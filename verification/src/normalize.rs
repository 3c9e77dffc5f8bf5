//! Cross-platform path normalization.
//!
//! A path string is normalized by unifying separators to `/`, detaching a
//! drive prefix (an ASCII letter followed by `:`), splitting on `/`,
//! resolving `.` and `..` segments against a stack, and reassembling. The
//! spec functions here define that algorithm mathematically; the executable
//! normalizer is proved to compute exactly `normalize_seq`.

use vstd::prelude::*;
use crate::chars::is_ascii_letter;
use crate::chars::ascii_letter;

verus! {

/// Separator unification: every backslash becomes a forward slash.
pub open spec fn slashify(s: Seq<char>) -> Seq<char> {
    s.map_values(|c: char| if c == '\\' { '/' } else { c })
}

/// A drive prefix is an ASCII letter followed by a colon in the first two
/// characters.
pub open spec fn has_drive(s: Seq<char>) -> bool {
    s.len() >= 2 && s[1] == ':' && is_ascii_letter(s[0])
}

/// Index of the first `/` in `s`, or `s.len()` if there is none.
pub open spec fn find_slash(s: Seq<char>) -> int
    decreases s.len(),
{
    if s.len() == 0 {
        0
    } else if s[0] == '/' {
        0
    } else {
        1 + find_slash(s.skip(1))
    }
}

pub(crate) proof fn lemma_find_slash(s: Seq<char>)
    ensures
        0 <= find_slash(s) <= s.len(),
        forall|k: int| 0 <= k < find_slash(s) ==> s[k] != '/',
        find_slash(s) < s.len() ==> s[find_slash(s)] == '/',
    decreases s.len(),
{
    if s.len() == 0 {
    } else if s[0] == '/' {
    } else {
        lemma_find_slash(s.skip(1));
        assert(forall|k: int| 0 <= k < find_slash(s.skip(1)) ==> s.skip(1)[k] != '/');
        assert forall|k: int| 0 <= k < find_slash(s) implies s[k] != '/' by {
            if k > 0 {
                assert(s.skip(1)[k - 1] == s[k]);
            }
        }
    }
}

/// `find_slash` is determined by the run of non-slash characters: if the
/// first `m` characters are not `/` and position `m` is the end or a `/`,
/// then `find_slash(s) == m`.
pub(crate) proof fn lemma_find_slash_exact(s: Seq<char>, m: int)
    requires
        0 <= m <= s.len(),
        forall|k: int| 0 <= k < m ==> s[k] != '/',
        m == s.len() || s[m] == '/',
    ensures
        find_slash(s) == m,
    decreases s.len(),
{
    if m == 0 {
    } else {
        assert(s[0] != '/');
        assert forall|k: int| 0 <= k < m - 1 implies s.skip(1)[k] != '/' by {
            assert(s.skip(1)[k] == s[k + 1]);
        }
        if m < s.len() {
            assert(s.skip(1)[m - 1] == s[m]);
        }
        lemma_find_slash_exact(s.skip(1), m - 1);
    }
}

/// Splitting on `/`: the (possibly empty) runs of characters between
/// slashes, in order.
pub open spec fn split_slash(s: Seq<char>) -> Seq<Seq<char>>
    decreases s.len(),
    via split_slash_decreases
{
    let i = find_slash(s);
    if i >= s.len() {
        seq![s]
    } else {
        seq![s.take(i)] + split_slash(s.skip(i + 1))
    }
}

#[via_fn]
proof fn split_slash_decreases(s: Seq<char>) {
    lemma_find_slash(s);
}

pub open spec fn dot() -> Seq<char> {
    seq!['.']
}

pub open spec fn dotdot() -> Seq<char> {
    seq!['.', '.']
}

/// One step of segment resolution against the result stack. Empty and `.`
/// segments are discarded; `..` pops a resolvable parent, accumulates on an
/// unresolvable chain of leading `..`s of a relative path, and is dropped at
/// the root of an absolute path; every other segment is pushed.
pub open spec fn step_segment(stack: Seq<Seq<char>>, seg: Seq<char>, abs: bool) -> Seq<Seq<char>> {
    if seg.len() == 0 || seg == dot() {
        stack
    } else if seg == dotdot() {
        if stack.len() > 0 && stack.last() == dotdot() {
            stack.push(seg)
        } else if stack.len() > 0 {
            stack.drop_last()
        } else if abs {
            stack
        } else {
            stack.push(seg)
        }
    } else {
        stack.push(seg)
    }
}

/// Left-to-right resolution of a segment sequence, starting from `stack`.
pub open spec fn fold_segments(stack: Seq<Seq<char>>, segs: Seq<Seq<char>>, abs: bool) -> Seq<
    Seq<char>,
>
    decreases segs.len(),
{
    if segs.len() == 0 {
        stack
    } else {
        fold_segments(step_segment(stack, segs[0], abs), segs.skip(1), abs)
    }
}

/// Joining segments with single slashes.
pub open spec fn join_slash(segs: Seq<Seq<char>>) -> Seq<char>
    decreases segs.len(),
{
    if segs.len() == 0 {
        Seq::empty()
    } else if segs.len() == 1 {
        segs[0]
    } else {
        segs[0] + seq!['/'] + join_slash(segs.skip(1))
    }
}

pub(crate) proof fn lemma_join_snoc(segs: Seq<Seq<char>>, x: Seq<char>)
    ensures
        join_slash(segs.push(x)) == if segs.len() == 0 {
            x
        } else {
            join_slash(segs) + seq!['/'] + x
        },
    decreases segs.len(),
{
    if segs.len() == 0 {
        assert(segs.push(x)[0] =~= x);
        assert(join_slash(segs.push(x)) == segs.push(x)[0]);
    } else {
        lemma_join_snoc(segs.skip(1), x);
        assert(segs.push(x).skip(1) =~= segs.skip(1).push(x));
        if segs.len() == 1 {
            assert(join_slash(segs.push(x)) == segs[0] + seq!['/'] + join_slash(
                segs.skip(1).push(x),
            ));
            assert(join_slash(segs.skip(1).push(x)) == x);
        }
    }
}

/// Resolution of a drive-free, separator-unified path: split on `/`, fold
/// the segments, rejoin, and put back a single leading slash when the input
/// was absolute.
pub open spec fn resolve(rest: Seq<char>) -> Seq<char> {
    let abs = rest.len() > 0 && rest[0] == '/';
    let stack = fold_segments(Seq::empty(), split_slash(rest), abs);
    let joined = join_slash(stack);
    if abs && !(joined.len() > 0 && joined[0] == '/') {
        seq!['/'] + joined
    } else {
        joined
    }
}

/// The canonical form of a path string.
pub open spec fn normalize_seq(s: Seq<char>) -> Seq<char> {
    let t = slashify(s);
    if has_drive(t) {
        t.take(2) + resolve(t.skip(2))
    } else {
        Seq::<char>::empty() + resolve(t)
    }
}

/// View of a stack of character vectors as a sequence of sequences.
pub open spec fn views(s: Seq<Vec<char>>) -> Seq<Seq<char>> {
    s.map_values(|v: Vec<char>| v@)
}

/// Applies one path segment to the result stack, following `step_segment`.
fn apply_segment(stack: &mut Vec<Vec<char>>, seg: Vec<char>, abs: bool)
    ensures
        views(final(stack)@) == step_segment(views(old(stack)@), seg@, abs),
{
    let ghost old_views = views(old(stack)@);
    if seg.len() == 0 || (seg.len() == 1 && seg[0] == '.') {
        proof {
            if seg@.len() == 1 && seg@[0] == '.' {
                assert(seg@ =~= dot());
            }
        }
        return ;
    }
    proof {
        assert(seg@ != dot()) by {
            if seg@.len() == dot().len() {
                assert(seg@[0] != dot()[0]);
            }
        }
    }
    let is_updir = seg.len() == 2 && seg[0] == '.' && seg[1] == '.';
    proof {
        if is_updir {
            assert(seg@ =~= dotdot());
        } else {
            assert(seg@ != dotdot()) by {
                if seg@.len() == dotdot().len() {
                    assert(seg@[0] != dotdot()[0] || seg@[1] != dotdot()[1]);
                }
            }
        }
    }
    if is_updir {
        if stack.len() > 0 {
            let top = &stack[stack.len() - 1];
            let top_updir = top.len() == 2 && top[0] == '.' && top[1] == '.';
            proof {
                if top_updir {
                    assert(old_views.last() =~= dotdot());
                } else {
                    assert(old_views.last() != dotdot()) by {
                        if top@.len() == dotdot().len() {
                            assert(top@[0] != dotdot()[0] || top@[1] != dotdot()[1]);
                        }
                    }
                }
            }
            if top_updir {
                stack.push(seg);
                assert(views(stack@) =~= old_views.push(seg@));
            } else {
                stack.pop();
                assert(views(stack@) =~= old_views.drop_last());
            }
        } else {
            if !abs {
                stack.push(seg);
                assert(views(stack@) =~= old_views.push(seg@));
            }
        }
    } else {
        stack.push(seg);
        assert(views(stack@) =~= old_views.push(seg@));
    }
}

/// Appends the characters of `src` to `dst`.
pub(crate) fn append_chars(dst: &mut Vec<char>, src: &Vec<char>)
    ensures
        final(dst)@ == old(dst)@ + src@,
{
    let mut i: usize = 0;
    while i < src.len()
        invariant
            i <= src@.len(),
            dst@ == old(dst)@ + src@.take(i as int),
        decreases src@.len() - i,
    {
        dst.push(src[i]);
        i = i + 1;
        assert(dst@ =~= old(dst)@ + src@.take(i as int));
    }
    assert(dst@ =~= old(dst)@ + src@);
}

/// Normalizes a path given as a character vector; computes `normalize_seq`.
pub fn normalize_chars(p: &Vec<char>) -> (r: Vec<char>)
    ensures
        r@ == normalize_seq(p@),
{
    // Unify separators.
    let mut t: Vec<char> = Vec::new();
    let mut i: usize = 0;
    while i < p.len()
        invariant
            i <= p@.len(),
            t@ == slashify(p@.take(i as int)),
        decreases p@.len() - i,
    {
        let c = p[i];
        if c == '\\' {
            t.push('/');
        } else {
            t.push(c);
        }
        i = i + 1;
        assert(t@ =~= slashify(p@.take(i as int)));
    }
    assert(p@.take(p@.len() as int) =~= p@);
    let ghost tv = slashify(p@);
    assert(t@ == tv);

    // Detach a drive prefix.
    let drive_present = t.len() >= 2 && t[1] == ':' && ascii_letter(t[0]);
    assert(drive_present == has_drive(tv));
    let mut drive: Vec<char> = Vec::new();
    let mut rest: Vec<char> = Vec::new();
    if drive_present {
        drive.push(t[0]);
        drive.push(t[1]);
        let mut k: usize = 2;
        while k < t.len()
            invariant
                2 <= k <= t@.len(),
                t@ == tv,
                rest@ == tv.skip(2).take(k - 2),
            decreases t@.len() - k,
        {
            rest.push(t[k]);
            k = k + 1;
            assert(rest@ =~= tv.skip(2).take(k - 2));
        }
        assert(rest@ =~= tv.skip(2));
        assert(drive@ =~= tv.take(2));
    } else {
        rest = t;
    }
    let ghost restv = if has_drive(tv) { tv.skip(2) } else { tv };
    assert(rest@ == restv);

    let abs = rest.len() > 0 && rest[0] == '/';

    // Resolve segments against a stack.
    let mut stack: Vec<Vec<char>> = Vec::new();
    let mut pos: usize = 0;
    proof {
        assert(restv.skip(0) =~= restv);
        assert(views(stack@) =~= Seq::<Seq<char>>::empty());
    }
    loop
        invariant_except_break
            rest@ == restv,
            pos <= restv.len(),
            fold_segments(views(stack@), split_slash(restv.skip(pos as int)), abs)
                == fold_segments(Seq::empty(), split_slash(restv), abs),
        ensures
            views(stack@) == fold_segments(Seq::empty(), split_slash(restv), abs),
        decreases restv.len() - pos,
    {
        let ghost suffix = restv.skip(pos as int);
        // Scan to the end of the current segment.
        let mut j: usize = pos;
        while j < rest.len() && rest[j] != '/'
            invariant
                rest@ == restv,
                pos <= j <= restv.len(),
                forall|k: int| pos <= k < j ==> restv[k] != '/',
            decreases restv.len() - j,
        {
            j = j + 1;
        }
        proof {
            assert forall|k: int| 0 <= k < j - pos implies suffix[k] != '/' by {
                assert(suffix[k] == restv[pos + k]);
            }
            if j < restv.len() {
                assert(suffix[j - pos] == restv[j as int]);
            }
            lemma_find_slash_exact(suffix, j - pos);
        }
        // Copy out the segment.
        let mut seg: Vec<char> = Vec::new();
        let mut k: usize = pos;
        while k < j
            invariant
                rest@ == restv,
                pos <= k <= j <= restv.len(),
                seg@ == restv.subrange(pos as int, k as int),
            decreases j - k,
        {
            seg.push(rest[k]);
            k = k + 1;
            assert(seg@ =~= restv.subrange(pos as int, k as int));
        }
        assert(seg@ =~= suffix.take(j - pos));
        let ghost stack_before = views(stack@);
        if j == rest.len() {
            proof {
                assert(split_slash(suffix) =~= seq![suffix]);
                assert(seg@ =~= suffix);
                assert(seq![seg@].skip(1) =~= Seq::<Seq<char>>::empty());
                assert(fold_segments(
                    step_segment(stack_before, seg@, abs),
                    Seq::<Seq<char>>::empty(),
                    abs,
                ) == step_segment(stack_before, seg@, abs));
                assert(fold_segments(stack_before, seq![seg@], abs) == fold_segments(
                    step_segment(stack_before, seg@, abs),
                    seq![seg@].skip(1),
                    abs,
                ));
            }
            apply_segment(&mut stack, seg, abs);
            break ;
        }
        proof {
            assert(split_slash(suffix) == seq![seg@] + split_slash(suffix.skip(j - pos + 1)));
            assert(suffix.skip(j - pos + 1) =~= restv.skip(j + 1));
            assert((seq![seg@] + split_slash(restv.skip(j + 1)))[0] == seg@);
            assert((seq![seg@] + split_slash(restv.skip(j + 1))).skip(1) =~= split_slash(
                restv.skip(j + 1),
            ));
        }
        apply_segment(&mut stack, seg, abs);
        pos = j + 1;
    }
    let ghost final_stack = fold_segments(Seq::empty(), split_slash(restv), abs);
    assert(views(stack@) == final_stack);

    // Join the stack with slashes.
    let mut joined: Vec<char> = Vec::new();
    let mut k: usize = 0;
    while k < stack.len()
        invariant
            views(stack@) == final_stack,
            k <= stack@.len(),
            joined@ == join_slash(final_stack.take(k as int)),
        decreases stack@.len() - k,
    {
        if k > 0 {
            joined.push('/');
        }
        append_chars(&mut joined, &stack[k]);
        proof {
            assert(final_stack.take(k + 1) =~= final_stack.take(k as int).push(
                final_stack[k as int],
            ));
            lemma_join_snoc(final_stack.take(k as int), final_stack[k as int]);
            assert(final_stack[k as int] == views(stack@)[k as int]);
        }
        k = k + 1;
    }
    assert(final_stack.take(final_stack.len() as int) =~= final_stack);
    let ghost joinedv = join_slash(final_stack);
    assert(joined@ == joinedv);

    // Reattach root and drive prefix.
    let needs_root = abs && !(joined.len() > 0 && joined[0] == '/');
    let mut result: Vec<char> = Vec::new();
    append_chars(&mut result, &drive);
    if needs_root {
        result.push('/');
    }
    append_chars(&mut result, &joined);
    proof {
        let rooted = if abs && !(joinedv.len() > 0 && joinedv[0] == '/') {
            seq!['/'] + joinedv
        } else {
            joinedv
        };
        if drive_present {
            assert(drive@ =~= tv.take(2));
        } else {
            assert(drive@ =~= Seq::<char>::empty());
        }
        if needs_root {
            assert(result@ =~= drive@ + (seq!['/'] + joinedv));
        }
        assert(result@ =~= normalize_seq(p@));
    }
    result
}

} // verus!
