use vstd::prelude::*;

verus! {

/// ASCII ` `.
pub const SPACE: u8 = 32;

/// ASCII `_`.
pub const UNDERSCORE: u8 = 95;

/// A byte of `[a-zA-Z_]` (ASCII `a` is 97, `z` 122, `A` 65, `Z` 90).
pub open spec fn is_word_byte(b: u8) -> bool {
    (97 <= b && b <= 122) || (65 <= b && b <= 90) || b == UNDERSCORE
}

/// The fragment that ends each removed run: the ASCII bytes of `_MBEDTLS_`.
pub open spec fn marker() -> Seq<u8> {
    seq![95u8, 77u8, 66u8, 69u8, 68u8, 84u8, 76u8, 83u8, 95u8]
}

/// The length of the leading run of word bytes of `t`.
pub open spec fn word_run(t: Seq<u8>) -> nat
    decreases t.len(),
{
    if t.len() > 0 && is_word_byte(t[0]) {
        1 + word_run(t.drop_first())
    } else {
        0
    }
}

/// The marker ends at position `n` of `t`.
pub open spec fn marker_ends_at(t: Seq<u8>, n: int) -> bool {
    9 <= n <= t.len() && t.subrange(n - 9, n) == marker()
}

/// The largest `n <= hi` at which the marker ends in `t`, if there is one.
pub open spec fn last_marker_end(t: Seq<u8>, hi: int) -> Option<int>
    decreases hi,
{
    if hi < 9 {
        None
    } else if marker_ends_at(t, hi) {
        Some(hi)
    } else {
        last_marker_end(t, hi - 1)
    }
}

/// What a match that follows a space takes of `t`, the text after that space:
/// the longest prefix made of word bytes that ends with the marker.
pub open spec fn fragment_len(t: Seq<u8>) -> Option<int> {
    last_marker_end(t, word_run(t) as int)
}

/// The text after a space that the rewrite pass removes, if any. The bounds
/// test only lets `collapsed` be seen to terminate: `lemma_fragment_len_bounds`
/// proves that it always passes, so this equals `fragment_len`.
pub open spec fn removed_len(t: Seq<u8>) -> Option<int> {
    match fragment_len(t) {
        Some(e) => if 0 <= e <= t.len() {
            Some(e)
        } else {
            None
        },
        None => None,
    }
}

/// The rewrite pass: scanning from the left, each space followed by a run of
/// word bytes that ends with `_MBEDTLS_` (the longest such run) is replaced by
/// a single space; the scan goes on after the replaced text.
pub open spec fn collapsed(t: Seq<u8>) -> Seq<u8>
    decreases t.len(),
{
    if t.len() == 0 {
        Seq::empty()
    } else if t[0] == SPACE && removed_len(t.drop_first()) is Some {
        seq![SPACE] + collapsed(t.subrange(1 + removed_len(t.drop_first())->0, t.len() as int))
    } else {
        seq![t[0]] + collapsed(t.drop_first())
    }
}

/// No space of `t` is followed by a run that the rewrite pass would remove.
pub open spec fn is_collapsed(t: Seq<u8>) -> bool {
    forall|k: int|
        0 <= k < t.len() && t[k] == SPACE ==> (#[trigger] fragment_len(
            t.subrange(k + 1, t.len() as int),
        )) is None
}

proof fn lemma_word_run_bound(t: Seq<u8>)
    ensures
        word_run(t) <= t.len(),
        forall|k: int| 0 <= k < word_run(t) ==> is_word_byte(#[trigger] t[k]),
        word_run(t) < t.len() ==> !is_word_byte(t[word_run(t) as int]),
    decreases t.len(),
{
    if t.len() > 0 && is_word_byte(t[0]) {
        lemma_word_run_bound(t.drop_first());
        assert forall|k: int| 0 <= k < word_run(t) implies is_word_byte(#[trigger] t[k]) by {
            if k > 0 {
                assert(t[k] == t.drop_first()[k - 1]);
            }
        }
    }
}

proof fn lemma_last_marker_end_bounds(t: Seq<u8>, hi: int)
    ensures
        last_marker_end(t, hi) matches Some(n) ==> marker_ends_at(t, n) && n <= hi,
    decreases hi,
{
    if hi >= 9 && !marker_ends_at(t, hi) {
        lemma_last_marker_end_bounds(t, hi - 1);
    }
}

/// A removed fragment is at least the marker long and lies within the run
/// that follows the space.
pub proof fn lemma_fragment_len_bounds(t: Seq<u8>)
    ensures
        fragment_len(t) matches Some(e) ==> 9 <= e <= word_run(t) <= t.len(),
        removed_len(t) == fragment_len(t),
{
    lemma_word_run_bound(t);
    lemma_last_marker_end_bounds(t, word_run(t) as int);
}

proof fn lemma_last_marker_end_is_last(t: Seq<u8>, hi: int, m: int)
    requires
        last_marker_end(t, hi) matches Some(n) && n < m <= hi,
    ensures
        !marker_ends_at(t, m),
    decreases hi,
{
    if hi >= 9 && !marker_ends_at(t, hi) && m < hi {
        lemma_last_marker_end_is_last(t, hi - 1, m);
    }
}

/// Two texts that agree on their first `n` bytes agree on where the marker ends
/// up to `n`.
proof fn lemma_last_marker_end_prefix(a: Seq<u8>, b: Seq<u8>, n: int, hi: int)
    requires
        hi <= n <= a.len(),
        n <= b.len(),
        a.subrange(0, n) == b.subrange(0, n),
    ensures
        last_marker_end(a, hi) == last_marker_end(b, hi),
    decreases hi,
{
    if hi >= 9 {
        assert(a.subrange(hi - 9, hi) =~= a.subrange(0, n).subrange(hi - 9, hi));
        assert(b.subrange(hi - 9, hi) =~= b.subrange(0, n).subrange(hi - 9, hi));
        lemma_last_marker_end_prefix(a, b, n, hi - 1);
    }
}

/// Dropping part of a run shortens it by as much.
proof fn lemma_word_run_suffix(v: Seq<u8>, e: int)
    requires
        0 <= e <= word_run(v),
    ensures
        word_run(v.subrange(e, v.len() as int)) == word_run(v) - e,
    decreases e,
{
    lemma_word_run_bound(v);
    if e == 0 {
        assert(v.subrange(0, v.len() as int) =~= v);
    } else {
        assert(v.drop_first().subrange(e - 1, v.drop_first().len() as int) =~= v.subrange(
            e,
            v.len() as int,
        ));
        lemma_word_run_suffix(v.drop_first(), e - 1);
    }
}

/// The rewrite pass keeps the leading run of its input.
proof fn lemma_collapsed_keeps_run(u: Seq<u8>)
    ensures
        word_run(collapsed(u)) == word_run(u),
        collapsed(u).subrange(0, word_run(u) as int) == u.subrange(0, word_run(u) as int),
    decreases u.len(),
{
    lemma_word_run_bound(u);
    if u.len() > 0 {
        if u[0] == SPACE {
            assert(collapsed(u)[0] == SPACE);
        } else {
            assert(collapsed(u)[0] == u[0]);
            if is_word_byte(u[0]) {
                let c = collapsed(u);
                let d = u.drop_first();
                let cd = collapsed(d);
                assert(c =~= seq![u[0]] + cd);
                lemma_collapsed_keeps_run(d);
                lemma_word_run_bound(cd);
                assert(c.drop_first() =~= cd);
                let n = word_run(u) as int;
                assert(c.subrange(0, n) =~= seq![u[0]] + cd.subrange(0, n - 1));
                assert(u.subrange(0, n) =~= seq![u[0]] + d.subrange(0, n - 1));
            }
        }
    }
}

/// What the pass takes after a space depends only on the run that follows it,
/// which the pass keeps.
proof fn lemma_fragment_len_collapsed(u: Seq<u8>)
    ensures
        fragment_len(collapsed(u)) == fragment_len(u),
{
    lemma_collapsed_keeps_run(u);
    lemma_word_run_bound(u);
    lemma_word_run_bound(collapsed(u));
    let n = word_run(u) as int;
    lemma_last_marker_end_prefix(collapsed(u), u, n, n);
}

/// After a removed fragment, the rest of the run holds no marker.
proof fn lemma_no_fragment_after_match(v: Seq<u8>)
    requires
        fragment_len(v) is Some,
    ensures
        fragment_len(v.subrange(fragment_len(v)->0, v.len() as int)) is None,
{
    let e = fragment_len(v)->0;
    let w = word_run(v) as int;
    lemma_last_marker_end_bounds(v, w);
    let u = v.subrange(e, v.len() as int);
    lemma_word_run_suffix(v, e);
    let h = word_run(u) as int;
    lemma_last_marker_end_bounds(u, h);
    if let Some(m) = last_marker_end(u, h) {
        assert(u.subrange(m - 9, m) =~= v.subrange(m + e - 9, m + e));
        lemma_last_marker_end_is_last(v, w, m + e);
    }
}

proof fn lemma_is_collapsed_cons(h: u8, tail: Seq<u8>)
    requires
        is_collapsed(tail),
        h == SPACE ==> fragment_len(tail) is None,
    ensures
        is_collapsed(seq![h] + tail),
{
    let t = seq![h] + tail;
    assert forall|k: int| 0 <= k < t.len() && t[k] == SPACE implies (#[trigger] fragment_len(
        t.subrange(k + 1, t.len() as int),
    )) is None by {
        if k == 0 {
            assert(t.subrange(1, t.len() as int) =~= tail);
        } else {
            let j = k - 1;
            assert(t[k] == tail[j]);
            assert(fragment_len(tail.subrange(j + 1, tail.len() as int)) is None);
            assert(t.subrange(k + 1, t.len() as int) =~= tail.subrange(j + 1, tail.len() as int));
        }
    }
}

/// The output of the rewrite pass holds nothing more to rewrite.
proof fn lemma_collapsed_is_collapsed(t: Seq<u8>)
    ensures
        is_collapsed(collapsed(t)),
    decreases t.len(),
{
    if t.len() > 0 {
        let v = t.drop_first();
        lemma_fragment_len_bounds(v);
        if t[0] == SPACE && fragment_len(v) is Some {
            let e = fragment_len(v)->0;
            let u = t.subrange(1 + e, t.len() as int);
            assert(u =~= v.subrange(e, v.len() as int));
            lemma_no_fragment_after_match(v);
            lemma_fragment_len_collapsed(u);
            lemma_collapsed_is_collapsed(u);
            lemma_is_collapsed_cons(SPACE, collapsed(u));
        } else {
            lemma_collapsed_is_collapsed(v);
            lemma_fragment_len_collapsed(v);
            lemma_is_collapsed_cons(t[0], collapsed(v));
        }
    }
}

/// The rewrite pass leaves a text with nothing to rewrite as it is.
proof fn lemma_collapsed_fixed_point(t: Seq<u8>)
    requires
        is_collapsed(t),
    ensures
        collapsed(t) == t,
    decreases t.len(),
{
    if t.len() > 0 {
        let v = t.drop_first();
        lemma_fragment_len_bounds(v);
        assert(t.subrange(1, t.len() as int) =~= v);
        assert(fragment_len(t.subrange(1, t.len() as int)) is None || t[0] != SPACE);
        assert forall|k: int| 0 <= k < v.len() && v[k] == SPACE implies (#[trigger] fragment_len(
            v.subrange(k + 1, v.len() as int),
        )) is None by {
            assert(t[k + 1] == v[k]);
            assert(t.subrange(k + 2, t.len() as int) =~= v.subrange(k + 1, v.len() as int));
        }
        lemma_collapsed_fixed_point(v);
        assert(collapsed(t) =~= t);
    }
}

/// Rewriting twice gives what rewriting once gives.
pub proof fn lemma_collapse_idempotent(t: Seq<u8>)
    ensures
        collapsed(collapsed(t)) == collapsed(t),
{
    lemma_collapsed_is_collapsed(t);
    lemma_collapsed_fixed_point(collapsed(t));
}

/// Whether `b` is a byte of `[a-zA-Z_]`.
fn word_byte(b: u8) -> (r: bool)
    ensures
        r == is_word_byte(b),
{
    (97 <= b && b <= 122) || (65 <= b && b <= 90) || b == UNDERSCORE
}

/// The length of the run of word bytes of `t` that starts at `from`.
fn word_run_from(t: &[u8], from: usize) -> (r: usize)
    requires
        from <= t@.len(),
    ensures
        r == word_run(t@.subrange(from as int, t@.len() as int)),
        from + r <= t@.len(),
{
    let n = t.len();
    let mut j: usize = from;
    while j < n && word_byte(t[j])
        invariant
            from <= j <= n,
            n == t@.len(),
            word_run(t@.subrange(from as int, n as int)) == (j - from) + word_run(
                t@.subrange(j as int, n as int),
            ),
        decreases n - j,
    {
        assert(t@.subrange(j as int, n as int).drop_first() =~= t@.subrange(j + 1, n as int));
        j = j + 1;
    }
    j - from
}

/// Whether the marker ends at position `end` of `t`.
fn marker_ends(t: &[u8], end: usize) -> (r: bool)
    requires
        9 <= end <= t@.len(),
    ensures
        r == marker_ends_at(t@, end as int),
{
    let s = end - 9;
    let r = t[s] == 95 && t[s + 1] == 77 && t[s + 2] == 66 && t[s + 3] == 69 && t[s + 4] == 68
        && t[s + 5] == 84 && t[s + 6] == 76 && t[s + 7] == 83 && t[s + 8] == 95;
    if r {
        assert(t@.subrange(s as int, end as int) =~= marker());
    } else {
        assert(t@.subrange(s as int, end as int) != marker()) by {
            let sub = t@.subrange(s as int, end as int);
            if sub == marker() {
                assert(sub[0] == t@[s as int] && sub[1] == t@[s + 1] && sub[2] == t@[s + 2]
                    && sub[3] == t@[s + 3] && sub[4] == t@[s + 4] && sub[5] == t@[s + 5]
                    && sub[6] == t@[s + 6] && sub[7] == t@[s + 7] && sub[8] == t@[s + 8]);
            }
        }
    }
    r
}

/// The length of the text after `t[from - 1]` that the rewrite pass removes, if
/// any, where `run` is the length of the word run that starts at `from`.
fn fragment_from(t: &[u8], from: usize, run: usize) -> (r: Option<usize>)
    requires
        from + run <= t@.len(),
        run == word_run(t@.subrange(from as int, t@.len() as int)),
    ensures
        r matches Some(e) ==> fragment_len(t@.subrange(from as int, t@.len() as int)) == Some(
            e as int,
        ),
        r is None ==> fragment_len(t@.subrange(from as int, t@.len() as int)) is None,
{
    let ghost u = t@.subrange(from as int, t@.len() as int);
    let mut h: usize = run;
    while h >= 9
        invariant
            h <= run,
            from + run <= t@.len(),
            t@.len() == t.len(),
            u == t@.subrange(from as int, t@.len() as int),
            run == word_run(u),
            last_marker_end(u, run as int) == last_marker_end(u, h as int),
        decreases h,
    {
        assert(u.subrange(h - 9, h as int) =~= t@.subrange(from + h - 9, from + h));
        if marker_ends(t, from + h) {
            assert(marker_ends_at(u, h as int));
            return Some(h);
        }
        h = h - 1;
    }
    None
}

/// The rewrite pass over the text of a generated file: each space followed by
/// a run of `[a-zA-Z_]` bytes that ends with `_MBEDTLS_` becomes a single
/// space, the longest such run being taken, scanning from the left.
pub fn collapse_prefix_fragments(text: &[u8]) -> (r: Vec<u8>)
    ensures
        r@ == collapsed(text@),
{
    let n = text.len();
    let mut out: Vec<u8> = Vec::new();
    let mut i: usize = 0;
    assert(text@.subrange(0, n as int) =~= text@);
    while i < n
        invariant
            i <= n,
            n == text@.len(),
            collapsed(text@) == out@ + collapsed(text@.subrange(i as int, n as int)),
        decreases n - i,
    {
        let ghost rest = text@.subrange(i as int, n as int);
        assert(rest.drop_first() =~= text@.subrange(i + 1, n as int));
        proof {
            lemma_fragment_len_bounds(rest.drop_first());
        }
        let mut next: usize = i + 1;
        if text[i] == SPACE {
            let run = word_run_from(text, i + 1);
            if let Some(e) = fragment_from(text, i + 1, run) {
                assert(rest.subrange(1 + e, rest.len() as int) =~= text@.subrange(
                    i + 1 + e,
                    n as int,
                ));
                next = i + 1 + e;
            }
        }
        let ghost before = out@;
        out.push(text[i]);
        assert(out@ + collapsed(text@.subrange(next as int, n as int)) =~= before + (seq![text@[i as int]] + collapsed(text@.subrange(next as int, n as int))));
        i = next;
    }
    assert(out@ + collapsed(text@.subrange(n as int, n as int)) =~= out@);
    out
}

} // verus!
