//! Global properties of the path normalizer: a normalized absolute path
//! never keeps an unresolved parent segment, and normalization is
//! idempotent, except on one degenerate family of relative outputs whose
//! first segment re-parses as a drive prefix followed by a bare dot.

use vstd::prelude::*;
use crate::chars::is_ascii_letter;
use crate::normalize::dot;
use crate::normalize::dotdot;
use crate::normalize::find_slash;
use crate::normalize::fold_segments;
use crate::normalize::has_drive;
use crate::normalize::join_slash;
use crate::normalize::lemma_find_slash_exact;
use crate::normalize::normalize_seq;
use crate::normalize::resolve;
use crate::normalize::slashify;
use crate::normalize::split_slash;
use crate::normalize::step_segment;

verus! {

/// A segment that can sit on the result stack: non-empty, not the bare dot,
/// and free of separators (and of backslashes, which separator unification
/// has already removed).
pub open spec fn seg_ok(s: Seq<char>) -> bool {
    s.len() > 0 && s != dot() && (forall|q: int|
        0 <= q < s.len() ==> #[trigger] s[q] != '/' && s[q] != '\\')
}

/// The shape the result stack keeps: every element is a well-formed segment;
/// under an absolute root no `..` survives at all, and in a relative path
/// the surviving `..` segments form a prefix of the stack.
pub open spec fn stack_ok(st: Seq<Seq<char>>, abs: bool) -> bool {
    (forall|k: int| 0 <= k < st.len() ==> seg_ok(#[trigger] st[k])) && (abs ==> (forall|k: int|
        0 <= k < st.len() ==> #[trigger] st[k] != dotdot())) && (!abs ==> (forall|i: int, j: int|
        0 <= i < j < st.len() && #[trigger] st[j] == dotdot() ==> #[trigger] st[i] == dotdot()))
}

/// The characters a split segment may hold.
pub open spec fn seg_chars(x: Seq<char>) -> bool {
    forall|q: int| 0 <= q < x.len() ==> #[trigger] x[q] != '/' && x[q] != '\\'
}

proof fn lemma_split_chars(s: Seq<char>)
    requires
        forall|k: int| 0 <= k < s.len() ==> #[trigger] s[k] != '\\',
    ensures
        forall|k: int|
            0 <= k < split_slash(s).len() ==> seg_chars(#[trigger] split_slash(s)[k]),
    decreases s.len(),
{
    crate::normalize::lemma_find_slash(s);
    let i = find_slash(s);
    if i >= s.len() {
        assert(seg_chars(s));
        assert(split_slash(s)[0] == s);
    } else {
        let head = s.take(i);
        assert(seg_chars(head)) by {
            assert(forall|q: int| 0 <= q < head.len() ==> head[q] == s[q]);
        }
        let tail = s.skip(i + 1);
        assert(forall|k: int| 0 <= k < tail.len() ==> #[trigger] tail[k] != '\\') by {
            assert(forall|k: int| 0 <= k < tail.len() ==> tail[k] == s[k + i + 1]);
        }
        lemma_split_chars(tail);
        assert forall|k: int| 0 <= k < split_slash(s).len() implies seg_chars(
            #[trigger] split_slash(s)[k],
        ) by {
            if k == 0 {
                assert(split_slash(s)[0] == head);
            } else {
                assert(split_slash(s)[k] == split_slash(tail)[k - 1]);
            }
        }
    }
}

proof fn lemma_step_ok(st: Seq<Seq<char>>, seg: Seq<char>, abs: bool)
    requires
        stack_ok(st, abs),
        seg_chars(seg),
    ensures
        stack_ok(step_segment(st, seg, abs), abs),
{
    if seg.len() == 0 || seg == dot() {
    } else if seg == dotdot() {
        if st.len() > 0 && st.last() == dotdot() {
            if !abs {
                // everything on the stack is already `..`
                assert forall|i: int| 0 <= i < st.len() implies st[i] == dotdot() by {
                    if i < st.len() - 1 {
                        assert(st[st.len() - 1] == dotdot());
                    }
                }
            }
            assert(seg_ok(dotdot()));
            let st2 = st.push(seg);
            assert forall|i: int, j: int|
                0 <= i < j < st2.len() && #[trigger] st2[j] == dotdot() implies #[trigger] st2[i]
                == dotdot() by {
                if !abs {
                    assert(st2[i] == if i < st.len() {
                        st[i]
                    } else {
                        seg
                    });
                }
            }
        } else if st.len() > 0 {
            let st2 = st.drop_last();
            assert(forall|k: int| 0 <= k < st2.len() ==> st2[k] == st[k]);
        } else {
            assert(seg_ok(dotdot()));
        }
    } else {
        assert(seg_ok(seg));
        let st2 = st.push(seg);
        assert forall|i: int, j: int|
            0 <= i < j < st2.len() && #[trigger] st2[j] == dotdot() implies #[trigger] st2[i]
            == dotdot() by {
            if j < st.len() {
            } else {
                assert(st2[j] == seg);
            }
        }
    }
}

proof fn lemma_fold_ok(st: Seq<Seq<char>>, segs: Seq<Seq<char>>, abs: bool)
    requires
        stack_ok(st, abs),
        forall|k: int| 0 <= k < segs.len() ==> seg_chars(#[trigger] segs[k]),
    ensures
        stack_ok(fold_segments(st, segs, abs), abs),
    decreases segs.len(),
{
    if segs.len() > 0 {
        lemma_step_ok(st, segs[0], abs);
        assert(forall|k: int|
            0 <= k < segs.skip(1).len() ==> #[trigger] segs.skip(1)[k] == segs[k + 1]);
        lemma_fold_ok(step_segment(st, segs[0], abs), segs.skip(1), abs);
    }
}

proof fn lemma_join_split(st: Seq<Seq<char>>)
    requires
        st.len() > 0,
        forall|k: int| 0 <= k < st.len() ==> seg_ok(#[trigger] st[k]),
    ensures
        split_slash(join_slash(st)) == st,
    decreases st.len(),
{
    let j = join_slash(st);
    if st.len() == 1 {
        assert(j == st[0]);
        assert(seg_ok(st[0]));
        lemma_find_slash_exact(j, j.len() as int);
        assert(split_slash(j) =~= seq![st[0]]);
        assert(seq![st[0]] =~= st);
    } else {
        let head = st[0];
        let rest_join = join_slash(st.skip(1));
        assert(j == head + seq!['/'] + rest_join);
        let m = head.len() as int;
        assert forall|k: int| 0 <= k < m implies j[k] != '/' by {
            assert(j[k] == head[k]);
        }
        assert(j[m] == '/');
        assert(j.len() >= m + 1);
        lemma_find_slash_exact(j, m);
        assert(j.take(m) =~= head);
        assert(j.skip(m + 1) =~= rest_join);
        assert(forall|k: int| 0 <= k < st.skip(1).len() ==> seg_ok(#[trigger] st.skip(1)[k]));
        lemma_join_split(st.skip(1));
        assert(split_slash(j) == seq![head] + split_slash(rest_join));
        assert(seq![head] + st.skip(1) =~= st);
    }
}

proof fn lemma_fold_id(acc: Seq<Seq<char>>, segs: Seq<Seq<char>>, abs: bool)
    requires
        stack_ok(acc + segs, abs),
    ensures
        fold_segments(acc, segs, abs) == acc + segs,
    decreases segs.len(),
{
    if segs.len() == 0 {
        assert(acc + segs =~= acc);
    } else {
        let seg = segs[0];
        assert((acc + segs)[acc.len() as int] == seg);
        assert(seg_ok(seg));
        let st2 = acc.push(seg);
        if seg == dotdot() {
            assert(!abs);
            if acc.len() > 0 {
                assert((acc + segs)[acc.len() - 1] == acc.last());
                assert(acc.last() == dotdot());
            }
        }
        assert(step_segment(acc, seg, abs) == st2);
        assert(st2 + segs.skip(1) =~= acc + segs);
        lemma_fold_id(st2, segs.skip(1), abs);
    }
}

proof fn lemma_join_head(st: Seq<Seq<char>>)
    requires
        st.len() > 0,
        seg_ok(st[0]),
    ensures
        join_slash(st).len() >= st[0].len(),
        forall|q: int| 0 <= q < st[0].len() ==> join_slash(st)[q] == st[0][q],
        st.len() > 1 ==> join_slash(st).len() > st[0].len() && join_slash(st)[st[0].len() as int]
            == '/',
{
    if st.len() > 1 {
        assert(join_slash(st) == st[0] + seq!['/'] + join_slash(st.skip(1)));
    }
}

proof fn lemma_resolve_empty()
    ensures
        resolve(Seq::<char>::empty()) == Seq::<char>::empty(),
{
    let e = Seq::<char>::empty();
    assert(find_slash(e) == 0);
    assert(split_slash(e) =~= seq![e]);
    assert(step_segment(Seq::<Seq<char>>::empty(), e, false) == Seq::<Seq<char>>::empty());
    assert(seq![e].skip(1) =~= Seq::<Seq<char>>::empty());
    assert(fold_segments(Seq::<Seq<char>>::empty(), seq![e], false)
        == fold_segments(Seq::<Seq<char>>::empty(), seq![e].skip(1), false));
    assert(join_slash(Seq::<Seq<char>>::empty()) == e);
}

/// Resolving an already-resolved absolute body (`/` plus the joined stack)
/// changes nothing.
proof fn lemma_resolve_rooted(st: Seq<Seq<char>>)
    requires
        stack_ok(st, true),
    ensures
        resolve(seq!['/'] + join_slash(st)) == seq!['/'] + join_slash(st),
{
    let e = Seq::<char>::empty();
    let est: Seq<Seq<char>> = Seq::empty();
    let j = join_slash(st);
    let s = seq!['/'] + j;
    assert(s[0] == '/');
    lemma_find_slash_exact(s, 0);
    assert(split_slash(s) == seq![s.take(0)] + split_slash(s.skip(1)));
    assert(s.take(0) =~= e);
    assert(s.skip(1) =~= j);
    let segs = seq![e] + split_slash(j);
    assert(split_slash(s) == segs);
    assert(segs[0] == e);
    assert(step_segment(est, e, true) == est);
    assert(segs.skip(1) =~= split_slash(j));
    assert(fold_segments(est, segs, true) == fold_segments(est, split_slash(j), true));
    if st.len() == 0 {
        assert(j =~= e);
        assert(find_slash(e) == 0);
        assert(split_slash(e) =~= seq![e]);
        assert(seq![e].skip(1) =~= Seq::<Seq<char>>::empty());
        assert(fold_segments(est, seq![e], true) == fold_segments(
            est,
            seq![e].skip(1),
            true,
        ));
        assert(fold_segments(est, split_slash(j), true) == est);
        assert(join_slash(est) == e);
        assert(s =~= seq!['/'] + e);
    } else {
        lemma_join_split(st);
        assert(est + st =~= st);
        lemma_fold_id(est, st, true);
        assert(fold_segments(est, split_slash(j), true) == st);
        lemma_join_head(st);
        assert(j.len() > 0 && j[0] != '/');
    }
}

/// Resolving an already-resolved relative body (the joined stack) changes
/// nothing.
proof fn lemma_resolve_plain(st: Seq<Seq<char>>)
    requires
        stack_ok(st, false),
    ensures
        resolve(join_slash(st)) == join_slash(st),
{
    let e = Seq::<char>::empty();
    let est: Seq<Seq<char>> = Seq::empty();
    let j = join_slash(st);
    if st.len() == 0 {
        assert(j == e);
        lemma_resolve_empty();
    } else {
        lemma_join_head(st);
        assert(j[0] == st[0][0]);
        assert(j[0] != '/');
        lemma_join_split(st);
        assert(est + st =~= st);
        lemma_fold_id(est, st, false);
    }
}

/// A normalized absolute path keeps its root and holds no unresolved `..`
/// segment: traversal can never climb above the root.
pub proof fn lemma_root_containment(p: Seq<char>)
    requires
        ({
            let t = slashify(p);
            let rest = if has_drive(t) {
                t.skip(2)
            } else {
                t
            };
            rest.len() > 0 && rest[0] == '/'
        }),
    ensures
        ({
            let d: int = if has_drive(slashify(p)) {
                2
            } else {
                0
            };
            let r = normalize_seq(p);
            r.len() > d && r[d] == '/' && (forall|k: int|
                0 <= k < split_slash(r.skip(d + 1)).len() ==> #[trigger] split_slash(
                    r.skip(d + 1),
                )[k] != dotdot())
        }),
{
    let e = Seq::<char>::empty();
    let est: Seq<Seq<char>> = Seq::empty();
    let t = slashify(p);
    let rest = if has_drive(t) {
        t.skip(2)
    } else {
        t
    };
    let d: int = if has_drive(t) {
        2
    } else {
        0
    };
    let segs = split_slash(rest);
    let st = fold_segments(est, segs, true);
    let j = join_slash(st);
    assert(forall|k: int| 0 <= k < t.len() ==> #[trigger] t[k] != '\\');
    assert(forall|k: int| 0 <= k < rest.len() ==> #[trigger] rest[k] != '\\') by {
        assert(forall|k: int| 0 <= k < rest.len() ==> rest[k] == t[k + d]);
    }
    lemma_split_chars(rest);
    lemma_fold_ok(est, segs, true);
    if st.len() > 0 {
        lemma_join_head(st);
        assert(j[0] != '/');
    }
    let r = normalize_seq(p);
    assert(r == (if has_drive(t) {
        t.take(2)
    } else {
        e
    }) + (seq!['/'] + j));
    assert(r[d] == '/');
    assert(r.skip(d + 1) =~= j);
    if st.len() == 0 {
        assert(j =~= e);
        assert(find_slash(e) == 0);
        assert(split_slash(e) =~= seq![e]);
        assert(e != dotdot());
    } else {
        lemma_join_split(st);
    }
}

/// The one family of outputs on which normalization is not idempotent: a
/// relative result whose first segment is an ASCII letter, a colon, and a
/// bare dot, which a second pass re-reads as a drive prefix and a dot
/// segment.
pub open spec fn reparses_as_drive_dot(r: Seq<char>) -> bool {
    r.len() >= 3 && is_ascii_letter(r[0]) && r[1] == ':' && r[2] == '.' && (r.len() == 3 || r[3]
        == '/')
}

/// Idempotence: normalizing a normalized path changes nothing, for every
/// path whose normal form does not re-parse as a drive prefix followed by a
/// bare dot segment.
pub proof fn lemma_normalize_idempotent(p: Seq<char>)
    requires
        !reparses_as_drive_dot(normalize_seq(p)),
    ensures
        normalize_seq(normalize_seq(p)) == normalize_seq(p),
{
    let e = Seq::<char>::empty();
    let est: Seq<Seq<char>> = Seq::empty();
    let t = slashify(p);
    let dr = has_drive(t);
    let drive = if dr {
        t.take(2)
    } else {
        e
    };
    let rest = if dr {
        t.skip(2)
    } else {
        t
    };
    let abs = rest.len() > 0 && rest[0] == '/';
    let segs = split_slash(rest);
    let st = fold_segments(est, segs, abs);
    let j = join_slash(st);
    let rooted = if abs && !(j.len() > 0 && j[0] == '/') {
        seq!['/'] + j
    } else {
        j
    };
    let r = normalize_seq(p);
    assert(r == drive + rooted);

    // The stack is well shaped and free of separators and backslashes.
    assert(forall|k: int| 0 <= k < t.len() ==> #[trigger] t[k] != '\\');
    let d: int = if dr {
        2
    } else {
        0
    };
    assert(forall|k: int| 0 <= k < rest.len() ==> #[trigger] rest[k] != '\\') by {
        assert(forall|k: int| 0 <= k < rest.len() ==> rest[k] == t[k + d]);
    }
    lemma_split_chars(rest);
    lemma_fold_ok(est, segs, abs);

    // The output holds no backslash, so the second pass's separator
    // unification is the identity.
    if st.len() > 0 {
        lemma_join_head(st);
    }
    lemma_join_no_bs(st);
    assert(forall|k: int| 0 <= k < r.len() ==> #[trigger] r[k] != '\\') by {
        assert(forall|k: int| 0 <= k < drive.len() ==> drive[k] == t[k]);
        assert(forall|k: int| 0 <= k < rooted.len() ==> rooted[k] != '\\');
    }
    assert(slashify(r) =~= r);

    if abs {
        assert(st.len() > 0 ==> j[0] != '/');
        assert(rooted == seq!['/'] + j);
        lemma_resolve_rooted(st);
        if dr {
            assert(has_drive(r)) by {
                assert(r[0] == t[0] && r[1] == t[1]);
            }
            assert(r.take(2) =~= drive);
            assert(r.skip(2) =~= rooted);
            assert(normalize_seq(r) == drive + resolve(rooted));
        } else {
            assert(r == rooted);
            assert(r[0] == '/');
            assert(!has_drive(r));
            assert(normalize_seq(r) == e + resolve(r));
            assert(e + resolve(r) =~= resolve(r));
            assert(e + rooted =~= rooted);
        }
    } else {
        assert(rooted == j);
        if dr {
            assert(has_drive(r)) by {
                assert(r[0] == t[0] && r[1] == t[1]);
            }
            assert(r.take(2) =~= drive);
            assert(r.skip(2) =~= j);
            lemma_resolve_plain(st);
            assert(normalize_seq(r) == drive + resolve(j));
        } else {
            assert(r == e + j);
            assert(r =~= j);
            if st.len() == 0 {
                assert(j == e);
                assert(!has_drive(r));
                lemma_resolve_empty();
                assert(normalize_seq(r) == e + resolve(e));
                assert(e + e =~= e);
            } else {
                lemma_idempotent_relative(st, r);
            }
        }
    }
}

proof fn lemma_join_no_bs(st: Seq<Seq<char>>)
    requires
        forall|k: int| 0 <= k < st.len() ==> seg_ok(#[trigger] st[k]),
    ensures
        forall|q: int| 0 <= q < join_slash(st).len() ==> #[trigger] join_slash(st)[q] != '\\',
    decreases st.len(),
{
    if st.len() == 0 {
    } else if st.len() == 1 {
        assert(join_slash(st) == st[0]);
        assert(seg_ok(st[0]));
    } else {
        assert(forall|k: int| 0 <= k < st.skip(1).len() ==> seg_ok(#[trigger] st.skip(1)[k]));
        lemma_join_no_bs(st.skip(1));
        let j = join_slash(st);
        assert(j == st[0] + seq!['/'] + join_slash(st.skip(1)));
        assert forall|q: int| 0 <= q < j.len() implies #[trigger] j[q] != '\\' by {
            let m = st[0].len() as int;
            if q < m {
                assert(j[q] == st[0][q]);
                assert(seg_ok(st[0]));
            } else if q == m {
                assert(j[q] == '/');
            } else {
                assert(j[q] == join_slash(st.skip(1))[q - m - 1]);
            }
        }
    }
}

/// The relative, drive-free case of idempotence, where the first stack
/// segment may re-parse as a drive prefix on the second pass.
proof fn lemma_idempotent_relative(st: Seq<Seq<char>>, r: Seq<char>)
    requires
        st.len() > 0,
        stack_ok(st, false),
        r == join_slash(st),
        !reparses_as_drive_dot(r),
    ensures
        normalize_seq(r) == r,
{
    let e = Seq::<char>::empty();
    let est: Seq<Seq<char>> = Seq::empty();
    let head = st[0];
    let j = r;
    lemma_join_head(st);
    lemma_join_no_bs(st);
    assert(slashify(r) =~= r);
    if !(r.len() >= 2 && r[1] == ':' && is_ascii_letter(r[0])) {
        assert(!has_drive(r));
        lemma_resolve_plain(st);
        assert(normalize_seq(r) == e + resolve(r));
        assert(e + r =~= r);
    } else {
        // The first segment itself begins letter-colon.
        assert(head.len() >= 2 && head[1] == ':') by {
            if head.len() == 1 {
                assert(st.len() > 1);
                assert(r[1] == '/');
            } else {
                assert(r[1] == head[1]);
            }
        }
        assert(head != dotdot());
        assert forall|k: int| 0 <= k < st.len() implies #[trigger] st[k] != dotdot() by {
            if k > 0 && st[k] == dotdot() {
                assert(st[0] == dotdot());
            }
        }
        assert(normalize_seq(r) == r.take(2) + resolve(r.skip(2)));
        if head.len() == 2 {
            if st.len() == 1 {
                assert(r == head);
                assert(r.skip(2) =~= e);
                lemma_resolve_empty();
                assert(r.take(2) + e =~= r);
            } else {
                let tail = st.skip(1);
                assert(r == head + seq!['/'] + join_slash(tail));
                assert(forall|k: int| 0 <= k < tail.len() ==> seg_ok(#[trigger] tail[k]));
                assert(forall|k: int| 0 <= k < tail.len() ==> #[trigger] tail[k] != dotdot());
                assert(stack_ok(tail, true));
                lemma_resolve_rooted(tail);
                assert(r.skip(2) =~= seq!['/'] + join_slash(tail));
                assert(r.take(2) + (seq!['/'] + join_slash(tail)) =~= r);
            }
        } else {
            // head.len() >= 3: the remainder of the first segment is itself
            // a segment, by the idempotence precondition not a bare dot.
            let w = head.skip(2);
            assert(w.len() == head.len() - 2);
            assert(r[2] == head[2]);
            if head.len() == 3 && head[2] == '.' {
                assert(r.len() == 3 || r[3] == '/') by {
                    if st.len() > 1 {
                        assert(r[3] == '/');
                    } else {
                        assert(r == head);
                    }
                }
                assert(reparses_as_drive_dot(r));
                assert(false);
            }
            assert(seg_ok(w)) by {
                assert(forall|q: int| 0 <= q < w.len() ==> w[q] == head[q + 2]);
                assert(seg_ok(head));
                if w == dot() {
                    assert(w[0] == head[2]);
                    assert(w[0] == dot()[0]);
                    assert(dot()[0] == '.');
                    assert(w.len() == 1);
                    assert(head.len() == 3 && head[2] == '.');
                }
            }
            let st2 = seq![w] + st.skip(1);
            assert(st2.len() == st.len());
            assert(forall|k: int| 1 <= k < st2.len() ==> #[trigger] st2[k] == st[k]);
            assert(stack_ok(st2, false)) by {
                assert forall|k: int| 0 <= k < st2.len() implies seg_ok(#[trigger] st2[k]) by {
                    if k > 0 {
                        assert(st2[k] == st[k]);
                    }
                }
                assert forall|i: int, g: int|
                    0 <= i < g < st2.len() && #[trigger] st2[g] == dotdot() implies #[trigger] st2[i]
                    == dotdot() by {
                    assert(st2[g] == st[g]);
                    assert(st[g] != dotdot());
                }
            }
            assert(r.skip(2) =~= join_slash(st2)) by {
                if st.len() == 1 {
                    assert(r == head);
                    assert(join_slash(st2) == w);
                } else {
                    assert(r == head + seq!['/'] + join_slash(st.skip(1)));
                    assert(st2.skip(1) =~= st.skip(1));
                    assert(join_slash(st2) == w + seq!['/'] + join_slash(st2.skip(1)));
                }
            }
            lemma_resolve_plain(st2);
            assert(r.take(2) + join_slash(st2) =~= r);
        }
    }
}

} // verus!
