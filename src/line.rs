//! A single line of tiles (a row or a column, read from the edge the tiles
//! slide towards) and the slide-and-combine transform on it.
use vstd::prelude::*;

verus! {

/// The nonzero tiles of `s`, in order.
pub open spec fn compact(s: Seq<int>) -> Seq<int>
    decreases s.len(),
{
    if s.len() == 0 {
        s
    } else if s[0] == 0 {
        compact(s.drop_first())
    } else {
        seq![s[0]] + compact(s.drop_first())
    }
}

/// Combines equal neighbours pairwise from the front: each tile takes part in
/// at most one combination, so `[2, 2, 2]` becomes `[4, 2]`.
pub open spec fn combine(s: Seq<int>) -> Seq<int>
    decreases s.len(),
{
    if s.len() < 2 {
        s
    } else if s[0] == s[1] {
        seq![2 * s[0]] + combine(s.skip(2))
    } else {
        seq![s[0]] + combine(s.drop_first())
    }
}

/// `s` followed by zeros up to length `n`.
pub open spec fn pad_zeros(s: Seq<int>, n: nat) -> Seq<int> {
    s + Seq::new((n - s.len()) as nat, |i: int| 0int)
}

/// The line after a slide towards its front.
pub open spec fn merge_line(l: Seq<int>) -> Seq<int> {
    pad_zeros(combine(compact(l)), l.len())
}

/// Neighbours `l[i]`, `l[i + 1]` that let a slide change the line: a gap in
/// front of a tile, or two equal tiles.
pub open spec fn movable_at(l: Seq<int>, i: int) -> bool {
    (l[i] == 0 && l[i + 1] != 0) || (l[i] != 0 && l[i] == l[i + 1])
}

/// A slide towards the front changes something in the line.
pub open spec fn line_movable(l: Seq<int>) -> bool {
    exists|i: int| 0 <= i < l.len() - 1 && #[trigger] movable_at(l, i)
}

/// The sum of the tiles of a line.
pub open spec fn line_sum(s: Seq<int>) -> int
    decreases s.len(),
{
    if s.len() == 0 {
        0
    } else {
        s[0] + line_sum(s.drop_first())
    }
}

/// Every tile of the line can be doubled in a `usize`.
pub open spec fn doubles_fit(l: Seq<int>) -> bool {
    forall|i: int| 0 <= i < l.len() ==> 0 <= #[trigger] l[i] && 2 * l[i] <= usize::MAX
}

/// Two neighbours of `s` at `i` are equal.
pub open spec fn equal_at(s: Seq<int>, i: int) -> bool {
    s[i] == s[i + 1]
}

/// `s` has two equal neighbours.
pub open spec fn has_equal_pair(s: Seq<int>) -> bool {
    exists|i: int| 0 <= i < s.len() - 1 && #[trigger] equal_at(s, i)
}

pub proof fn lemma_compact_len(s: Seq<int>)
    ensures
        compact(s).len() <= s.len(),
        (exists|i: int| 0 <= i < s.len() && s[i] == 0) ==> compact(s).len() < s.len(),
    decreases s.len(),
{
    if s.len() > 0 {
        lemma_compact_len(s.drop_first());
        if exists|i: int| 0 <= i < s.len() && s[i] == 0 {
            let i = choose|i: int| 0 <= i < s.len() && s[i] == 0;
            if i > 0 {
                assert(s.drop_first()[i - 1] == 0);
            }
        }
    }
}

pub proof fn lemma_combine_len(s: Seq<int>)
    ensures
        combine(s).len() <= s.len(),
        has_equal_pair(s) ==> combine(s).len() < s.len(),
    decreases s.len(),
{
    if s.len() >= 2 {
        if s[0] == s[1] {
            lemma_combine_len(s.skip(2));
        } else {
            let t = s.drop_first();
            lemma_combine_len(t);
            if has_equal_pair(s) {
                let i = choose|i: int| 0 <= i < s.len() - 1 && #[trigger] equal_at(s, i);
                assert(equal_at(t, i - 1));
            }
        }
    }
}

/// Two equal nonzero neighbours of a line stay neighbours once the gaps are
/// taken out.
pub proof fn lemma_compact_keeps_pair(s: Seq<int>, i: int)
    requires
        0 <= i < s.len() - 1,
        s[i] != 0,
        s[i] == s[i + 1],
    ensures
        has_equal_pair(compact(s)),
    decreases s.len(),
{
    let t = s.drop_first();
    if i == 0 {
        assert(t[0] == s[1]);
        assert(compact(t)[0] == s[1]);
        assert(equal_at(compact(s), 0));
    } else {
        lemma_compact_keeps_pair(t, i - 1);
        let j = choose|j: int| 0 <= j < compact(t).len() - 1 && #[trigger] equal_at(compact(t), j);
        if s[0] != 0 {
            assert(equal_at(compact(s), j + 1));
        } else {
            assert(equal_at(compact(s), j));
        }
    }
}

/// A slide that changes a line leaves an empty cell at its far end.
pub proof fn lemma_movable_leaves_gap(l: Seq<int>)
    requires
        line_movable(l),
    ensures
        merge_line(l).len() == l.len(),
        merge_line(l)[l.len() - 1] == 0,
{
    let i = choose|i: int| 0 <= i < l.len() - 1 && #[trigger] movable_at(l, i);
    lemma_compact_len(l);
    lemma_combine_len(compact(l));
    if l[i] == 0 {
        assert(compact(l).len() < l.len());
    } else {
        lemma_compact_keeps_pair(l, i);
        assert(combine(compact(l)).len() < compact(l).len());
    }
}

/// A line in which nothing can move: every cell after a gap is a gap too.
proof fn lemma_still_gap_tail(l: Seq<int>, j: int)
    requires
        !line_movable(l),
        0 <= j < l.len(),
        l[0] == 0,
    ensures
        l[j] == 0,
    decreases j,
{
    if j > 0 {
        lemma_still_gap_tail(l, j - 1);
        assert(!movable_at(l, j - 1));
    }
}

proof fn lemma_compact_zeros(l: Seq<int>)
    requires
        forall|j: int| 0 <= j < l.len() ==> l[j] == 0,
    ensures
        compact(l).len() == 0,
    decreases l.len(),
{
    if l.len() > 0 {
        lemma_compact_zeros(l.drop_first());
    }
}

/// A slide that can change nothing leaves the line as it is.
pub proof fn lemma_still_line_fixed(l: Seq<int>)
    requires
        !line_movable(l),
    ensures
        merge_line(l) == l,
    decreases l.len(),
{
    if l.len() == 0 {
        assert(merge_line(l) =~= l);
    } else if l[0] == 0 {
        assert forall|j: int| 0 <= j < l.len() implies l[j] == 0 by {
            lemma_still_gap_tail(l, j);
        }
        lemma_compact_zeros(l);
        assert(merge_line(l) =~= l);
    } else {
        let t = l.drop_first();
        assert(!line_movable(t)) by {
            if line_movable(t) {
                let i = choose|i: int| 0 <= i < t.len() - 1 && #[trigger] movable_at(t, i);
                assert(movable_at(l, i + 1));
            }
        }
        lemma_still_line_fixed(t);
        let ct = compact(t);
        assert(compact(l) == seq![l[0]] + ct);
        if t.len() > 0 && t[0] == 0 {
            assert forall|j: int| 0 <= j < t.len() implies t[j] == 0 by {
                lemma_still_gap_tail(t, j);
            }
            lemma_compact_zeros(t);
            assert(combine(compact(l)) =~= seq![l[0]]);
            assert(merge_line(l) =~= l);
        } else if t.len() > 0 {
            assert(!movable_at(l, 0));
            assert(ct[0] == t[0]);
            let cl = seq![l[0]] + ct;
            assert(cl[1] == ct[0]);
            assert(cl.drop_first() =~= ct);
            assert(combine(compact(l)) =~= seq![l[0]] + combine(ct));
            assert(merge_line(t) =~= pad_zeros(combine(ct), t.len()));
            assert(merge_line(l) =~= seq![l[0]] + merge_line(t));
        } else {
            assert(merge_line(l) =~= l);
        }
    }
}

proof fn lemma_compact_nonzero(s: Seq<int>)
    ensures
        forall|j: int| 0 <= j < compact(s).len() ==> #[trigger] compact(s)[j] != 0,
    decreases s.len(),
{
    if s.len() > 0 {
        let t = s.drop_first();
        lemma_compact_nonzero(t);
        assert forall|j: int| 0 <= j < compact(s).len() implies #[trigger] compact(s)[j] != 0 by {
            if s[0] != 0 && j > 0 {
                assert(compact(s)[j] == compact(t)[j - 1]);
            }
        }
    }
}

proof fn lemma_combine_nonzero(s: Seq<int>)
    requires
        forall|j: int| 0 <= j < s.len() ==> #[trigger] s[j] != 0,
    ensures
        forall|j: int| 0 <= j < combine(s).len() ==> #[trigger] combine(s)[j] != 0,
    decreases s.len(),
{
    if s.len() >= 2 {
        let t = if s[0] == s[1] { s.skip(2) } else { s.drop_first() };
        let head = if s[0] == s[1] { 2 * s[0] } else { s[0] };
        assert(forall|j: int| 0 <= j < t.len() ==> #[trigger] t[j] == s[j + s.len() - t.len()]);
        assert forall|j: int| 0 <= j < t.len() implies #[trigger] t[j] != 0 by {
            assert(s[j + s.len() - t.len()] != 0);
        }
        lemma_combine_nonzero(t);
        assert(combine(s) == seq![head] + combine(t));
        assert forall|j: int| 0 <= j < combine(s).len() implies #[trigger] combine(s)[j] != 0 by {
            if j > 0 {
                assert(combine(s)[j] == combine(t)[j - 1]);
            }
        }
    }
}

proof fn lemma_compact_padded(x: Seq<int>, n: nat)
    requires
        forall|j: int| 0 <= j < x.len() ==> #[trigger] x[j] != 0,
        x.len() <= n,
    ensures
        compact(pad_zeros(x, n)) == x,
    decreases x.len(),
{
    let p = pad_zeros(x, n);
    if x.len() == 0 {
        lemma_compact_zeros(p);
        assert(compact(p) =~= x);
    } else {
        lemma_compact_padded(x.drop_first(), (n - 1) as nat);
        assert(p.drop_first() =~= pad_zeros(x.drop_first(), (n - 1) as nat));
        assert(compact(p) =~= x);
    }
}

/// A line in which something can move changes when it slides.
pub proof fn lemma_movable_line_changes(l: Seq<int>)
    requires
        line_movable(l),
    ensures
        merge_line(l) != l,
{
    if merge_line(l) == l {
        let s = compact(l);
        let c = combine(s);
        lemma_compact_nonzero(l);
        lemma_combine_nonzero(s);
        lemma_compact_len(l);
        lemma_combine_len(s);
        lemma_compact_padded(c, l.len());
        assert(s == c);
        assert(!has_equal_pair(s));
        let i = choose|i: int| 0 <= i < l.len() - 1 && #[trigger] movable_at(l, i);
        assert(forall|j: int| 0 <= j < c.len() ==> l[j] == #[trigger] c[j]);
        assert(forall|j: int| c.len() <= j < l.len() ==> #[trigger] l[j] == 0);
        if i + 1 < c.len() {
            assert(equal_at(s, i));
        }
    }
}

proof fn lemma_sum_concat(a: Seq<int>, b: Seq<int>)
    ensures
        line_sum(a + b) == line_sum(a) + line_sum(b),
    decreases a.len(),
{
    if a.len() == 0 {
        assert(a + b =~= b);
    } else {
        assert((a + b).drop_first() =~= a.drop_first() + b);
        lemma_sum_concat(a.drop_first(), b);
    }
}

proof fn lemma_sum_single(x: int)
    ensures
        line_sum(seq![x]) == x,
{
    assert(seq![x].drop_first() =~= Seq::<int>::empty());
    assert(line_sum(Seq::<int>::empty()) == 0);
}

proof fn lemma_sum_zeros(n: nat)
    ensures
        line_sum(Seq::new(n, |i: int| 0int)) == 0,
    decreases n,
{
    if n > 0 {
        assert(Seq::new(n, |i: int| 0int).drop_first() =~= Seq::new((n - 1) as nat, |i: int| 0int));
        lemma_sum_zeros((n - 1) as nat);
    }
}

proof fn lemma_compact_sum(s: Seq<int>)
    ensures
        line_sum(compact(s)) == line_sum(s),
    decreases s.len(),
{
    if s.len() > 0 {
        lemma_compact_sum(s.drop_first());
        if s[0] != 0 {
            lemma_sum_single(s[0]);
            lemma_sum_concat(seq![s[0]], compact(s.drop_first()));
        }
    }
}

proof fn lemma_combine_sum(s: Seq<int>)
    ensures
        line_sum(combine(s)) == line_sum(s),
    decreases s.len(),
{
    if s.len() >= 2 {
        lemma_sum_single(s[0]);
        if s[0] == s[1] {
            lemma_sum_single(2 * s[0]);
            lemma_combine_sum(s.skip(2));
            lemma_sum_concat(seq![2 * s[0]], combine(s.skip(2)));
            assert(s.drop_first().drop_first() =~= s.skip(2));
            assert(line_sum(s.drop_first()) == s[1] + line_sum(s.skip(2)));
        } else {
            lemma_combine_sum(s.drop_first());
            lemma_sum_concat(seq![s[0]], combine(s.drop_first()));
        }
    }
}

/// A slide keeps the sum of the tiles of a line: two equal tiles become one of
/// their sum, and gaps count for nothing.
pub proof fn lemma_merge_line_sum(l: Seq<int>)
    ensures
        line_sum(merge_line(l)) == line_sum(l),
{
    let c = combine(compact(l));
    lemma_compact_sum(l);
    lemma_combine_sum(compact(l));
    lemma_compact_len(l);
    lemma_combine_len(compact(l));
    lemma_sum_concat(c, Seq::new((l.len() - c.len()) as nat, |i: int| 0int));
    lemma_sum_zeros((l.len() - c.len()) as nat);
}

/// The tiles of an array line as integers.
pub open spec fn ints(a: [usize; 4]) -> Seq<int> {
    a@.map_values(|v: usize| v as int)
}

/// The combination still owed for a tile held back, if any.
pub open spec fn held(prev: usize) -> Seq<int> {
    if prev == 0 {
        Seq::empty()
    } else {
        seq![prev as int]
    }
}

/// Slides the tiles of `l` towards its front (index 0): gaps close up, and two
/// equal tiles that meet become one of double the value, each tile at most once.
/// A line of gaps stays as it is.
pub fn slide_line(l: [usize; 4]) -> (r: [usize; 4])
    requires
        doubles_fit(ints(l)),
    ensures
        ints(r) == merge_line(ints(l)),
{
    let ghost lv = ints(l);
    let mut out: [usize; 4] = [0; 4];
    let mut i: usize = 0;
    let mut prev: usize = 0;
    let mut j: usize = 0;
    assert(lv.skip(0) =~= lv);
    assert(ints(out).subrange(0, 0) + held(0) =~= Seq::<int>::empty());
    while j < 4
        invariant
            j <= 4,
            lv == ints(l),
            doubles_fit(lv),
            i + held(prev).len() <= j,
            2 * prev <= usize::MAX,
            forall|q: int| i <= q < 4 ==> out[q] == 0,
            ints(out).subrange(0, i as int) + combine(held(prev) + compact(lv.skip(j as int)))
                == combine(compact(lv)),
        decreases 4 - j,
    {
        let v = l[j];
        let ghost rest = lv.skip(j as int);
        let ghost next = lv.skip(j + 1);
        let ghost before = ints(out).subrange(0, i as int);
        assert(rest[0] == v as int);
        assert(rest.drop_first() =~= next);
        assert(2 * lv[j as int] <= usize::MAX);
        if v != 0 {
            assert(compact(rest) == seq![v as int] + compact(next));
            if prev == v {
                let ghost cs = seq![prev as int, v as int] + compact(next);
                assert(held(prev) + compact(rest) =~= cs);
                assert(cs.skip(2) =~= compact(next));
                out[i] = 2 * prev;
                assert(ints(out).subrange(0, i + 1) =~= before + seq![2 * prev as int]);
                i = i + 1;
                prev = 0;
                assert(held(prev) + compact(next) =~= compact(next));
            } else if prev == 0 {
                assert(held(prev) + compact(rest) =~= held(v) + compact(next));
                prev = v;
            } else {
                let ghost cs = seq![prev as int, v as int] + compact(next);
                assert(held(prev) + compact(rest) =~= cs);
                assert(cs.drop_first() =~= held(v) + compact(next));
                out[i] = prev;
                assert(ints(out).subrange(0, i + 1) =~= before + seq![prev as int]);
                i = i + 1;
                prev = v;
            }
        } else {
            assert(compact(rest) == compact(next));
        }
        j = j + 1;
    }
    assert(lv.skip(4) =~= Seq::<int>::empty());
    assert(compact(lv.skip(4)) =~= Seq::<int>::empty());
    assert(held(prev) + Seq::<int>::empty() =~= held(prev));
    let ghost before = ints(out).subrange(0, i as int);
    if prev != 0 {
        out[i] = prev;
        assert(ints(out).subrange(0, i + 1) =~= before + held(prev));
        i = i + 1;
    }
    assert(ints(out) =~= merge_line(lv));
    out
}

} // verus!
