use vstd::prelude::*;

verus! {

/// Flattening the first `i + 1` rows appends row `i` to the flattening of
/// the first `i` rows.
pub proof fn lemma_flatten_take_next<A>(s: Seq<Seq<A>>, i: int)
    requires
        0 <= i < s.len(),
    ensures
        s.take(i + 1).flatten() == s.take(i).flatten() + s[i],
{
    assert(s.take(i + 1) =~= s.take(i).push(s[i]));
    s.take(i).lemma_flatten_push(s[i]);
}

/// Rows that all have length `w` flatten to `s.len() * w` items, with item
/// `c` of row `r` at position `r * w + c`.
pub proof fn lemma_flatten_uniform<A>(s: Seq<Seq<A>>, w: nat)
    requires
        forall|r: int| 0 <= r < s.len() ==> #[trigger] s[r].len() == w,
    ensures
        s.flatten().len() == s.len() * w,
        forall|r: int, c: int|
            0 <= r < s.len() && 0 <= c < w ==> #[trigger] s.flatten()[r * w + c] == s[r][c],
    decreases s.len(),
{
    if s.len() > 0 {
        let rest = s.drop_first();
        assert forall|r: int| 0 <= r < rest.len() implies #[trigger] rest[r].len() == w by {
            assert(rest[r] == s[r + 1]);
        }
        lemma_flatten_uniform(rest, w);
        assert(s.flatten() == s[0] + rest.flatten());
        let n = rest.len();
        assert(s.len() * w == w + n * w) by (nonlinear_arith)
            requires
                s.len() == n + 1,
        ;
        assert forall|r: int, c: int| 0 <= r < s.len() && 0 <= c < w implies #[trigger] s.flatten()[r
            * w + c] == s[r][c] by {
            if r == 0 {
                assert(r * w + c == c) by (nonlinear_arith)
                    requires
                        r == 0,
                ;
            } else {
                let q = r - 1;
                assert(r * w + c == w + (q * w + c)) by (nonlinear_arith)
                    requires
                        q == r - 1,
                ;
                assert(q * w + c < n * w) by (nonlinear_arith)
                    requires
                        0 <= q < n,
                        0 <= c < w,
                ;
                assert(0 <= q * w) by (nonlinear_arith)
                    requires
                        0 <= q,
                ;
                assert(rest.flatten()[q * w + c] == rest[q][c]);
            }
        }
    }
}

/// The flattening of `s` is the flattening of the rows before `k`, then row
/// `k`, then the flattening of the rows after it.
pub proof fn lemma_flatten_split<A>(s: Seq<Seq<A>>, k: int)
    requires
        0 <= k < s.len(),
    ensures
        s.flatten() == s.take(k).flatten() + s[k] + s.skip(k + 1).flatten(),
{
    assert(s =~= s.take(k + 1) + s.skip(k + 1));
    vstd::seq_lib::lemma_flatten_concat(s.take(k + 1), s.skip(k + 1));
    lemma_flatten_take_next(s, k);
}

/// Row `k` sits in the flattening of `s` right after the rows before it.
pub proof fn lemma_flatten_row_position<A>(s: Seq<Seq<A>>, k: int)
    requires
        0 <= k < s.len(),
    ensures
        s.take(k).flatten().len() + s[k].len() <= s.flatten().len(),
        s.flatten().subrange(
            s.take(k).flatten().len() as int,
            (s.take(k).flatten().len() + s[k].len()) as int,
        ) == s[k],
{
    lemma_flatten_split(s, k);
    let p = s.take(k).flatten();
    let q = s.skip(k + 1).flatten();
    assert(s.flatten().subrange(p.len() as int, (p.len() + s[k].len()) as int) =~= s[k]);
}

} // verus!
