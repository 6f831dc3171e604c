//! Byte-level scanning: equality, prefixes, two-byte delimiter search,
//! whitespace tokens and NUL trimming, with the spec functions that the
//! parser's contracts are stated over.
use vstd::prelude::*;

verus! {

/// The five bytes that `char::is_ascii_whitespace` accepts: space, tab,
/// line feed, form feed and carriage return.
pub open spec fn is_ascii_ws(b: u8) -> bool {
    b == 32 || b == 9 || b == 10 || b == 12 || b == 13
}

/// `p` stands at the front of `s`.
pub open spec fn has_prefix(s: Seq<u8>, p: Seq<u8>) -> bool {
    p.len() <= s.len() && s.subrange(0, p.len() as int) == p
}

/// Index of the first occurrence of the two-byte pattern `a b` in `s`,
/// or -1 when the pattern does not occur.
pub open spec fn find2(s: Seq<u8>, a: u8, b: u8) -> int
    decreases s.len(),
{
    if s.len() < 2 {
        -1
    } else if s[0] == a && s[1] == b {
        0
    } else {
        let r = find2(s.drop_first(), a, b);
        if r < 0 {
            -1
        } else {
            r + 1
        }
    }
}

/// What `find2` returns: the pattern stands at the returned index and
/// nowhere earlier; -1 means it stands nowhere.
pub proof fn lemma_find2_props(s: Seq<u8>, a: u8, b: u8)
    ensures
        find2(s, a, b) >= 0 ==> {
            &&& find2(s, a, b) + 1 < s.len()
            &&& s[find2(s, a, b)] == a
            &&& s[find2(s, a, b) + 1] == b
            &&& forall|j: int| 0 <= j < find2(s, a, b) ==> !(#[trigger] s[j] == a && s[j + 1] == b)
        },
        find2(s, a, b) < 0 ==> forall|j: int|
            0 <= j && j + 1 < s.len() ==> !(#[trigger] s[j] == a && s[j + 1] == b),
    decreases s.len(),
{
    if s.len() < 2 {
    } else if s[0] == a && s[1] == b {
    } else {
        lemma_find2_props(s.drop_first(), a, b);
        if find2(s, a, b) >= 0 {
            assert forall|j: int| 0 <= j < find2(s, a, b) implies !(#[trigger] s[j] == a && s[j + 1]
                == b) by {
                if j > 0 {
                    assert(s.drop_first()[j - 1] == s[j]);
                    assert(s.drop_first()[j] == s[j + 1]);
                }
            }
        } else {
            assert forall|j: int| 0 <= j && j + 1 < s.len() implies !(#[trigger] s[j] == a && s[j
                + 1] == b) by {
                if j > 0 {
                    assert(s.drop_first()[j - 1] == s[j]);
                    assert(s.drop_first()[j] == s[j + 1]);
                }
            }
        }
    }
}

/// `find2` returns exactly the first index where the pattern stands.
pub proof fn lemma_find2_at(s: Seq<u8>, a: u8, b: u8, k: int)
    requires
        0 <= k,
        k + 1 < s.len(),
        s[k] == a,
        s[k + 1] == b,
        forall|j: int| 0 <= j < k ==> !(#[trigger] s[j] == a && s[j + 1] == b),
    ensures
        find2(s, a, b) == k,
    decreases s.len(),
{
    if k == 0 {
    } else {
        assert(!(s[0] == a && s[1] == b));
        assert forall|j: int| 0 <= j < k - 1 implies !(#[trigger] s.drop_first()[j] == a
            && s.drop_first()[j + 1] == b) by {
            assert(s.drop_first()[j] == s[j + 1]);
            assert(s.drop_first()[j + 1] == s[j + 2]);
        }
        lemma_find2_at(s.drop_first(), a, b, k - 1);
    }
}

/// When the pattern stands nowhere in `s`, `find2` returns -1.
pub proof fn lemma_find2_none(s: Seq<u8>, a: u8, b: u8)
    requires
        forall|j: int| 0 <= j && j + 1 < s.len() ==> !(#[trigger] s[j] == a && s[j + 1] == b),
    ensures
        find2(s, a, b) < 0,
    decreases s.len(),
{
    if s.len() < 2 {
    } else {
        assert(!(s[0] == a && s[1] == b));
        assert forall|j: int| 0 <= j && j + 1 < s.drop_first().len() implies !(
        #[trigger] s.drop_first()[j] == a && s.drop_first()[j + 1] == b) by {
            assert(s.drop_first()[j] == s[j + 1]);
            assert(s.drop_first()[j + 1] == s[j + 2]);
        }
        lemma_find2_none(s.drop_first(), a, b);
    }
}

/// First occurrence of the pattern `a b` at or after `from`, as an index
/// into `s` itself.
pub fn find2_from(s: &[u8], from: usize, a: u8, b: u8) -> (r: Option<usize>)
    requires
        from <= s@.len(),
    ensures
        match r {
            Some(k) => from <= k && k - from == find2(s@.skip(from as int), a, b),
            None => find2(s@.skip(from as int), a, b) < 0,
        },
{
    let ghost t = s@.skip(from as int);
    let mut i: usize = from;
    while i < s.len() && i + 1 < s.len()
        invariant
            from <= i <= s@.len(),
            t == s@.skip(from as int),
            forall|j: int| 0 <= j < i - from ==> !(#[trigger] t[j] == a && t[j + 1] == b),
        decreases s@.len() - i,
    {
        proof {
            assert(t[i - from] == s@[i as int]);
            assert(i + 1 < s@.len() ==> t[i - from + 1] == s@[i + 1]);
        }
        if s[i] == a && s[i + 1] == b {
            proof {
                lemma_find2_at(t, a, b, i - from);
            }
            return Some(i);
        }
        i += 1;
    }
    proof {
        assert(forall|j: int|
            0 <= j && j + 1 < t.len() ==> #[trigger] t[j] == s@[from + j] && t[j + 1] == s@[from + j
                + 1]);
        lemma_find2_none(t, a, b);
    }
    None
}

/// The two byte runs are equal.
pub fn bytes_eq(x: &[u8], y: &[u8]) -> (r: bool)
    ensures
        r == (x@ == y@),
{
    if x.len() != y.len() {
        return false;
    }
    let mut i: usize = 0;
    while i < x.len()
        invariant
            0 <= i <= x@.len(),
            x@.len() == y@.len(),
            forall|j: int| 0 <= j < i ==> x@[j] == y@[j],
        decreases x@.len() - i,
    {
        if x[i] != y[i] {
            return false;
        }
        i += 1;
    }
    proof {
        assert(x@ =~= y@);
    }
    true
}

/// `p` stands at the front of `s`.
pub fn starts_with(s: &[u8], p: &[u8]) -> (r: bool)
    ensures
        r == has_prefix(s@, p@),
{
    if p.len() > s.len() {
        return false;
    }
    let mut i: usize = 0;
    while i < p.len()
        invariant
            0 <= i <= p@.len(),
            p@.len() <= s@.len(),
            forall|j: int| 0 <= j < i ==> s@[j] == p@[j],
        decreases p@.len() - i,
    {
        if s[i] != p[i] {
            assert(s@.subrange(0, p@.len() as int)[i as int] != p@[i as int]);
            return false;
        }
        i += 1;
    }
    proof {
        assert(s@.subrange(0, p@.len() as int) =~= p@);
    }
    true
}

/// A fresh vector holding `s[from..to]`.
pub fn copy_range(s: &[u8], from: usize, to: usize) -> (v: Vec<u8>)
    requires
        from <= to <= s@.len(),
    ensures
        v@ == s@.subrange(from as int, to as int),
{
    let mut v: Vec<u8> = Vec::new();
    let mut i: usize = from;
    while i < to
        invariant
            from <= i <= to <= s@.len(),
            v@ == s@.subrange(from as int, i as int),
        decreases to - i,
    {
        v.push(s[i]);
        proof {
            assert(v@ =~= s@.subrange(from as int, i + 1));
        }
        i += 1;
    }
    v
}

/// A fresh vector holding all of `s`.
pub fn copy_bytes(s: &[u8]) -> (v: Vec<u8>)
    ensures
        v@ == s@,
{
    let v = copy_range(s, 0, s.len());
    proof {
        assert(s@.subrange(0, s@.len() as int) =~= s@);
    }
    v
}

/// Length of the whitespace-free run at the front of `s`.
pub open spec fn tok_len(s: Seq<u8>) -> int
    decreases s.len(),
{
    if s.len() == 0 || is_ascii_ws(s[0]) {
        0
    } else {
        1 + tok_len(s.drop_first())
    }
}

/// `tok_len` names the longest whitespace-free prefix: no byte in it is
/// whitespace, and the byte after it, if any, is.
pub proof fn lemma_tok_len_props(s: Seq<u8>)
    ensures
        0 <= tok_len(s) <= s.len(),
        forall|i: int| 0 <= i < tok_len(s) ==> !is_ascii_ws(#[trigger] s[i]),
        tok_len(s) < s.len() ==> is_ascii_ws(s[tok_len(s)]),
    decreases s.len(),
{
    if s.len() == 0 || is_ascii_ws(s[0]) {
    } else {
        lemma_tok_len_props(s.drop_first());
        assert forall|i: int| 0 <= i < tok_len(s) implies !is_ascii_ws(#[trigger] s[i]) by {
            if i > 0 {
                assert(s.drop_first()[i - 1] == s[i]);
            }
        }
        if tok_len(s) < s.len() {
            assert(s.drop_first()[tok_len(s) - 1] == s[tok_len(s)]);
        }
    }
}

/// A run of `m` non-whitespace bytes closed by whitespace or the end has
/// `tok_len` exactly `m`.
pub proof fn lemma_tok_len_at(s: Seq<u8>, m: int)
    requires
        0 <= m <= s.len(),
        forall|i: int| 0 <= i < m ==> !is_ascii_ws(#[trigger] s[i]),
        m < s.len() ==> is_ascii_ws(s[m]),
    ensures
        tok_len(s) == m,
    decreases s.len(),
{
    if m == 0 {
    } else {
        assert(!is_ascii_ws(s[0]));
        assert forall|i: int| 0 <= i < m - 1 implies !is_ascii_ws(#[trigger] s.drop_first()[i]) by {
            assert(s.drop_first()[i] == s[i + 1]);
        }
        if m - 1 < s.drop_first().len() {
            assert(s.drop_first()[m - 1] == s[m]);
        }
        lemma_tok_len_at(s.drop_first(), m - 1);
    }
}

/// The whitespace-separated tokens of `s`, in order, as
/// `str::split_ascii_whitespace` yields them.
pub open spec fn ws_tokens(s: Seq<u8>) -> Seq<Seq<u8>>
    decreases s.len(),
    via ws_tokens_dec
{
    if s.len() == 0 {
        Seq::empty()
    } else if is_ascii_ws(s[0]) {
        ws_tokens(s.drop_first())
    } else {
        seq![s.take(tok_len(s))] + ws_tokens(s.skip(tok_len(s)))
    }
}

#[via_fn]
proof fn ws_tokens_dec(s: Seq<u8>) {
    if s.len() > 0 && !is_ascii_ws(s[0]) {
        lemma_tok_len_props(s);
        lemma_tok_len_props(s.drop_first());
    }
}

/// The token list of `s`, each token a fresh vector.
pub fn ws_token_list(s: &[u8]) -> (toks: Vec<Vec<u8>>)
    ensures
        toks@.map_values(|t: Vec<u8>| t@) == ws_tokens(s@),
{
    let mut toks: Vec<Vec<u8>> = Vec::new();
    let mut i: usize = 0;
    proof {
        assert(s@.skip(0) =~= s@);
        assert(toks@.map_values(|t: Vec<u8>| t@) + ws_tokens(s@) =~= ws_tokens(s@));
    }
    while i < s.len()
        invariant
            0 <= i <= s@.len(),
            ws_tokens(s@) == toks@.map_values(|t: Vec<u8>| t@) + ws_tokens(s@.skip(i as int)),
        decreases s@.len() - i,
    {
        let ghost prev = toks@.map_values(|t: Vec<u8>| t@);
        let ghost t = s@.skip(i as int);
        proof {
            assert(t[0] == s@[i as int]);
        }
        if s[i] == 32 || s[i] == 9 || s[i] == 10 || s[i] == 12 || s[i] == 13 {
            proof {
                assert(t.drop_first() =~= s@.skip(i + 1));
            }
            i += 1;
        } else {
            let mut j: usize = i + 1;
            while j < s.len() && s[j] != 32 && s[j] != 9 && s[j] != 10 && s[j] != 12 && s[j] != 13
                invariant
                    i < j <= s@.len(),
                    forall|k: int| i <= k < j ==> !is_ascii_ws(#[trigger] s@[k]),
                decreases s@.len() - j,
            {
                j += 1;
            }
            let tok = copy_range(s, i, j);
            proof {
                assert forall|k: int| 0 <= k < j - i implies !is_ascii_ws(#[trigger] t[k]) by {
                    assert(t[k] == s@[i + k]);
                }
                if j < s@.len() {
                    assert(t[j - i] == s@[j as int]);
                }
                lemma_tok_len_at(t, j - i);
                assert(t.take(j - i) =~= s@.subrange(i as int, j as int));
                assert(t.skip(j - i) =~= s@.skip(j as int));
            }
            toks.push(tok);
            proof {
                assert(toks@.map_values(|t: Vec<u8>| t@) =~= prev + seq![tok@]);
                assert(ws_tokens(s@) == toks@.map_values(|t: Vec<u8>| t@) + ws_tokens(
                    s@.skip(j as int),
                ));
            }
            i = j;
        }
    }
    proof {
        assert(s@.skip(i as int) =~= Seq::<u8>::empty());
        assert(ws_tokens(s@) =~= toks@.map_values(|t: Vec<u8>| t@));
    }
    toks
}

/// The first two whitespace-separated tokens of `s`, or nothing when `s`
/// holds fewer than two.
pub fn first_two_tokens(s: &[u8]) -> (r: Option<(Vec<u8>, Vec<u8>)>)
    ensures
        r is Some <==> ws_tokens(s@).len() >= 2,
        r matches Some(p) ==> p.0@ == ws_tokens(s@)[0] && p.1@ == ws_tokens(s@)[1],
{
    let mut toks = ws_token_list(s);
    if toks.len() >= 2 {
        let ghost all = toks@;
        let first = toks.remove(0);
        let second = toks.remove(0);
        proof {
            assert(ws_tokens(s@)[0] == all.map_values(|t: Vec<u8>| t@)[0]);
            assert(ws_tokens(s@)[1] == all.map_values(|t: Vec<u8>| t@)[1]);
        }
        Some((first, second))
    } else {
        None
    }
}

/// `s` with every leading and trailing NUL byte removed.
pub open spec fn trim_nuls(s: Seq<u8>) -> Seq<u8>
    decreases s.len(),
{
    if s.len() == 0 {
        s
    } else if s[0] == 0 {
        trim_nuls(s.drop_first())
    } else if s[s.len() - 1] == 0 {
        trim_nuls(s.drop_last())
    } else {
        s
    }
}

/// Trimming a run whose NUL bytes stand only before `a` and after `b`
/// keeps exactly `s[a..=b]`.
pub proof fn lemma_trim_nuls_range(s: Seq<u8>, a: int, b: int)
    requires
        0 <= a <= b < s.len(),
        s[a] != 0,
        s[b] != 0,
        forall|k: int| 0 <= k < a ==> #[trigger] s[k] == 0,
        forall|k: int| b < k < s.len() ==> #[trigger] s[k] == 0,
    ensures
        trim_nuls(s) == s.subrange(a, b + 1),
    decreases s.len(),
{
    if a > 0 {
        assert forall|k: int| 0 <= k < a - 1 implies #[trigger] s.drop_first()[k] == 0 by {
            assert(s.drop_first()[k] == s[k + 1]);
        }
        assert forall|k: int| b - 1 < k < s.drop_first().len() implies #[trigger] s.drop_first()[k]
            == 0 by {
            assert(s.drop_first()[k] == s[k + 1]);
        }
        lemma_trim_nuls_range(s.drop_first(), a - 1, b - 1);
        assert(s.drop_first().subrange(a - 1, b) =~= s.subrange(a, b + 1));
    } else if b < s.len() - 1 {
        assert(s[s.len() - 1] == 0);
        lemma_trim_nuls_range(s.drop_last(), a, b);
        assert(s.drop_last().subrange(a, b + 1) =~= s.subrange(a, b + 1));
    } else {
        assert(s.subrange(0, s.len() as int) =~= s);
    }
}

/// A run of NUL bytes alone trims to the empty run.
pub proof fn lemma_trim_nuls_all(s: Seq<u8>)
    requires
        forall|k: int| 0 <= k < s.len() ==> #[trigger] s[k] == 0,
    ensures
        trim_nuls(s) == Seq::<u8>::empty(),
    decreases s.len(),
{
    if s.len() == 0 {
        assert(s =~= Seq::<u8>::empty());
    } else {
        assert forall|k: int| 0 <= k < s.drop_first().len() implies #[trigger] s.drop_first()[k]
            == 0 by {
            assert(s.drop_first()[k] == s[k + 1]);
        }
        lemma_trim_nuls_all(s.drop_first());
    }
}

/// `s` with every leading and trailing NUL byte removed, as a fresh
/// vector.
pub fn trim_nul_bytes(s: &[u8]) -> (v: Vec<u8>)
    ensures
        v@ == trim_nuls(s@),
{
    let mut a: usize = 0;
    while a < s.len() && s[a] == 0
        invariant
            0 <= a <= s@.len(),
            forall|k: int| 0 <= k < a ==> #[trigger] s@[k] == 0,
        decreases s@.len() - a,
    {
        a += 1;
    }
    if a == s.len() {
        proof {
            lemma_trim_nuls_all(s@);
        }
        let v: Vec<u8> = Vec::new();
        return v;
    }
    let mut b: usize = s.len() - 1;
    while s[b] == 0
        invariant
            a <= b < s@.len(),
            s@[a as int] != 0,
            forall|k: int| b < k < s@.len() ==> #[trigger] s@[k] == 0,
        decreases b,
    {
        b -= 1;
    }
    proof {
        lemma_trim_nuls_range(s@, a as int, b as int);
    }
    copy_range(s, a, b + 1)
}

} // verus!
