//! Character-level operations on text, stated over `Seq<char>`.
use vstd::prelude::*;

verus! {

/// `p` is a prefix of `s`.
pub open spec fn is_prefix(p: Seq<char>, s: Seq<char>) -> bool {
    p.len() <= s.len() && s.subrange(0, p.len() as int) == p
}

/// `t` occurs in `s` starting at position `i`.
pub open spec fn occurs_at(s: Seq<char>, t: Seq<char>, i: int) -> bool {
    0 <= i && i + t.len() <= s.len() && s.subrange(i, i + t.len()) == t
}

/// `t` occurs somewhere in `s`.
pub open spec fn contains(s: Seq<char>, t: Seq<char>) -> bool {
    exists|i: int| occurs_at(s, t, i)
}

/// The first `n` characters of `s` (all of `s` when it is shorter).
pub open spec fn take(s: Seq<char>, n: int) -> Seq<char> {
    if s.len() <= n { s } else { s.subrange(0, n) }
}

/// `a` and `b` agree on their first `k` characters, and at `k` either `a`
/// ends while `b` goes on, or `a` holds the smaller character.
pub open spec fn differs_below_at(a: Seq<char>, b: Seq<char>, k: int) -> bool {
    &&& 0 <= k <= a.len()
    &&& k <= b.len()
    &&& a.subrange(0, k) == b.subrange(0, k)
    &&& ((k == a.len() && k < b.len()) || (k < a.len() && k < b.len() && a[k] < b[k]))
}

/// Lexicographic order by character (code point), which is the byte order
/// of UTF-8.
pub open spec fn lex_less(a: Seq<char>, b: Seq<char>) -> bool {
    exists|k: int| differs_below_at(a, b, k)
}

/// Characters of `s` equal those of `t` from position `i` on.
fn matches_at(s: &str, t: &str, i: usize) -> (r: bool)
    requires
        i + t@.len() <= s@.len(),
    ensures
        r == occurs_at(s@, t@, i as int),
{
    let n = t.unicode_len();
    let ls = s.unicode_len();
    let mut k: usize = 0;
    while k < n
        invariant
            n == t@.len(),
            ls == s@.len(),
            i + n <= s@.len(),
            k <= n,
            forall|j: int| 0 <= j < k ==> s@[i + j] == t@[j],
        decreases n - k,
    {
        if s.get_char(i + k) != t.get_char(k) {
            assert(s@.subrange(i as int, i + n)[k as int] != t@[k as int]);
            return false;
        }
        k = k + 1;
    }
    assert(s@.subrange(i as int, i + n) =~= t@);
    true
}

/// Whether the two texts are equal.
pub fn text_eq(a: &str, b: &str) -> (r: bool)
    ensures
        r == (a@ == b@),
{
    if a.unicode_len() != b.unicode_len() {
        return false;
    }
    let r = matches_at(a, b, 0);
    proof {
        if r {
            assert(a@ =~= a@.subrange(0, b@.len() as int));
        } else {
            assert(a@.subrange(0, b@.len() as int) =~= a@);
        }
    }
    r
}

/// Whether `p` is a prefix of `s`.
pub fn starts_with(s: &str, p: &str) -> (r: bool)
    ensures
        r == is_prefix(p@, s@),
{
    if p.unicode_len() > s.unicode_len() {
        return false;
    }
    matches_at(s, p, 0)
}

/// Whether `a` followed by `b` spells `q`.
pub fn is_concat_of(a: &str, b: &str, q: &str) -> (r: bool)
    ensures
        r == (a@ + b@ == q@),
{
    let la = a.unicode_len();
    let lb = b.unicode_len();
    if la > q.unicode_len() || q.unicode_len() - la != lb {
        proof {
            if a@ + b@ == q@ {
                assert((a@ + b@).len() == la + lb);
            }
        }
        return false;
    }
    let r1 = matches_at(q, a, 0);
    let r2 = matches_at(q, b, la);
    proof {
        if r1 && r2 {
            assert(q@ =~= q@.subrange(0, la as int) + q@.subrange(la as int, q@.len() as int));
            assert(a@ + b@ =~= q@);
        }
        if a@ + b@ == q@ {
            assert(q@.subrange(0, la as int) =~= a@);
            assert(q@.subrange(la as int, la + lb) =~= b@);
        }
    }
    r1 && r2
}

/// Whether `t` occurs in `s`.
pub fn contains_text(s: &str, t: &str) -> (r: bool)
    ensures
        r == contains(s@, t@),
{
    let ls = s.unicode_len();
    let lt = t.unicode_len();
    if lt > ls {
        proof {
            assert forall|i: int| !occurs_at(s@, t@, i) by {}
        }
        return false;
    }
    let mut i: usize = 0;
    while i < ls - lt
        invariant
            ls == s@.len(),
            lt == t@.len(),
            lt <= ls,
            i <= ls - lt,
            forall|j: int| 0 <= j < i ==> !occurs_at(s@, t@, j),
        decreases ls - lt - i,
    {
        if matches_at(s, t, i) {
            return true;
        }
        i = i + 1;
    }
    let r = matches_at(s, t, ls - lt);
    proof {
        if !r {
            assert forall|j: int| !occurs_at(s@, t@, j) by {
                if 0 <= j && j + lt <= ls && j != ls - lt {
                    assert(j < i);
                }
            }
        }
    }
    r
}

/// Whether `a` comes strictly before `b` in code-point order.
pub fn text_less(a: &str, b: &str) -> (r: bool)
    ensures
        r == lex_less(a@, b@),
{
    let la = a.unicode_len();
    let lb = b.unicode_len();
    let mut i: usize = 0;
    while i < la && i < lb
        invariant
            la == a@.len(),
            lb == b@.len(),
            i <= la,
            i <= lb,
            a@.subrange(0, i as int) == b@.subrange(0, i as int),
        decreases la - i,
    {
        let ca = a.get_char(i);
        let cb = b.get_char(i);
        if ca != cb {
            let r = ca < cb;
            proof {
                if r {
                    assert(differs_below_at(a@, b@, i as int));
                } else {
                    assert forall|k: int| !differs_below_at(a@, b@, k) by {
                        if differs_below_at(a@, b@, k) && k != i {
                            if k < i {
                                assert(a@.subrange(0, i as int)[k] == a@[k]);
                                assert(b@.subrange(0, i as int)[k] == b@[k]);
                            } else {
                                assert(a@.subrange(0, k)[i as int] == a@[i as int]);
                                assert(b@.subrange(0, k)[i as int] == b@[i as int]);
                            }
                        }
                    }
                }
            }
            return r;
        }
        proof {
            assert(a@.subrange(0, i + 1) =~= a@.subrange(0, i as int).push(ca));
            assert(b@.subrange(0, i + 1) =~= b@.subrange(0, i as int).push(cb));
        }
        i = i + 1;
    }
    let r = i == la && i < lb;
    proof {
        if r {
            assert(differs_below_at(a@, b@, i as int));
        } else {
            assert forall|k: int| !differs_below_at(a@, b@, k) by {
                if differs_below_at(a@, b@, k) && k < i {
                    assert(a@.subrange(0, i as int)[k] == a@[k]);
                    assert(b@.subrange(0, i as int)[k] == b@[k]);
                }
            }
        }
    }
    r
}

} // verus!

verus! {

/// The code-point order is transitive.
pub proof fn lemma_lex_less_transitive(a: Seq<char>, b: Seq<char>, c: Seq<char>)
    requires
        lex_less(a, b),
        lex_less(b, c),
    ensures
        lex_less(a, c),
{
    let k1 = choose|k: int| differs_below_at(a, b, k);
    let k2 = choose|k: int| differs_below_at(b, c, k);
    let k = if k1 <= k2 { k1 } else { k2 };
    assert forall|j: int| 0 <= j < k implies a[j] == c[j] by {
        assert(a.subrange(0, k1)[j] == b.subrange(0, k1)[j]);
        assert(b.subrange(0, k2)[j] == c.subrange(0, k2)[j]);
    }
    assert(a.subrange(0, k) =~= c.subrange(0, k));
    if k1 < k2 {
        assert(b.subrange(0, k2)[k1] == c.subrange(0, k2)[k1]);
    } else if k2 < k1 {
        assert(a.subrange(0, k1)[k2] == b.subrange(0, k1)[k2]);
    }
    assert(differs_below_at(a, c, k));
}

proof fn first_difference(a: Seq<char>, b: Seq<char>, m: int) -> (k: int)
    requires
        m <= a.len(),
        m <= b.len(),
        exists|j: int| 0 <= j < m && a[j] != b[j],
    ensures
        0 <= k < m,
        a[k] != b[k],
        forall|j: int| 0 <= j < k ==> a[j] == b[j],
    decreases m,
{
    if exists|j: int| 0 <= j < m - 1 && a[j] != b[j] {
        first_difference(a, b, m - 1)
    } else {
        m - 1
    }
}

/// Of two different texts, one comes before the other.
pub proof fn lemma_lex_less_total(a: Seq<char>, b: Seq<char>)
    requires
        a != b,
    ensures
        lex_less(a, b) || lex_less(b, a),
{
    let m = if a.len() <= b.len() { a.len() as int } else { b.len() as int };
    if a.subrange(0, m) == b.subrange(0, m) {
        if a.len() == b.len() {
            assert(a =~= a.subrange(0, m));
            assert(b =~= b.subrange(0, m));
        } else if a.len() < b.len() {
            assert(differs_below_at(a, b, m));
        } else {
            assert(differs_below_at(b, a, m));
        }
    } else {
        assert(exists|j: int| 0 <= j < m && a[j] != b[j]) by {
            assert(!(a.subrange(0, m) =~= b.subrange(0, m)));
            let j = choose|j: int| 0 <= j < m && a.subrange(0, m)[j] != b.subrange(0, m)[j];
            assert(a[j] != b[j]);
        }
        let k = first_difference(a, b, m);
        assert(a.subrange(0, k) =~= b.subrange(0, k));
        if a[k] < b[k] {
            assert(differs_below_at(a, b, k));
        } else {
            assert(differs_below_at(b, a, k));
        }
    }
}

/// Nothing comes before itself.
pub proof fn lemma_lex_less_irreflexive(a: Seq<char>)
    ensures
        !lex_less(a, a),
{
}

} // verus!
