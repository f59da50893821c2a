//! The reporting periods an issuer lists, from the directory's
//! comma-separated range text.
use vstd::prelude::*;
use crate::text::{contains, contains_text, lex_less, text_less};

verus! {

/// The pieces of `s` between the separators `", "`.
pub open spec fn pieces(s: Seq<char>) -> Seq<Seq<char>>
    decreases s.len(),
{
    if s.len() == 0 {
        seq![Seq::empty()]
    } else if s.len() >= 2 && s[s.len() - 2] == ',' && s[s.len() - 1] == ' ' {
        pieces(s.subrange(0, s.len() - 2)).push(Seq::empty())
    } else {
        let p = pieces(s.drop_last());
        p.update(p.len() - 1, p.last().push(s.last()))
    }
}

pub proof fn lemma_pieces_nonempty(s: Seq<char>)
    ensures
        pieces(s).len() >= 1,
    decreases s.len(),
{
    if s.len() == 0 {
    } else if s.len() >= 2 && s[s.len() - 2] == ',' && s[s.len() - 1] == ' ' {
        lemma_pieces_nonempty(s.subrange(0, s.len() - 2));
    } else {
        lemma_pieces_nonempty(s.drop_last());
    }
}

pub open spec fn string_views(v: Seq<String>) -> Seq<Seq<char>> {
    v.map_values(|x: String| x@)
}

/// Splits `s` at every `", "`.
pub fn split_list(s: &str) -> (r: Vec<String>)
    ensures
        string_views(r@) == pieces(s@),
{
    let n = s.unicode_len();
    let mut out: Vec<String> = Vec::new();
    let mut start: usize = 0;
    let mut i: usize = 0;
    proof {
        assert(s@.subrange(0, 0) =~= Seq::<char>::empty());
        assert(string_views(out@).push(s@.subrange(0, 0)) =~= seq![Seq::<char>::empty()]);
    }
    while i < n
        invariant
            n == s@.len(),
            start <= i <= n,
            start == 0 || (start >= 2 && s@[start - 1] == ' ' && s@[start - 2] == ','),
            pieces(s@.subrange(0, i as int)) == string_views(out@).push(s@.subrange(start as int, i as int)),
        decreases n - i,
    {
        let c = s.get_char(i);
        let ghost pre = s@.subrange(0, i + 1);
        if c == ' ' && i > start && s.get_char(i - 1) == ',' {
            let ghost shorter = s@.subrange(0, i - 1);
            let ghost p = pieces(shorter);
            proof {
                assert(pre.subrange(0, pre.len() - 2) =~= shorter);
                assert(pieces(pre) == p.push(Seq::<char>::empty()));
                let mid = s@.subrange(0, i as int);
                assert(mid.drop_last() =~= shorter);
                assert(!(mid[mid.len() - 1] == ' '));
                lemma_pieces_nonempty(shorter);
                assert(pieces(mid) == p.update(p.len() - 1, p.last().push(mid.last())));
                assert(s@.subrange(start as int, i as int) =~= s@.subrange(start as int, i - 1).push(s@[i - 1]));
                assert(pieces(mid).len() == p.len());
                assert(p.len() == out@.len() + 1);
                assert(pieces(mid)[p.len() - 1] == p.last().push(mid.last()));
                assert(pieces(mid)[p.len() - 1] == s@.subrange(start as int, i as int));
                assert(mid.last() == s@[i - 1]);
                assert(p.last().push(mid.last()) == s@.subrange(start as int, i - 1).push(s@[i - 1]));
                assert(p.last() =~= p.last().push(mid.last()).drop_last());
                assert(s@.subrange(start as int, i - 1).push(s@[i - 1]).drop_last() =~= s@.subrange(start as int, i - 1));
                assert(p.last() == s@.subrange(start as int, i - 1));
                assert(p =~= string_views(out@).push(s@.subrange(start as int, i - 1))) by {
                    assert forall|k: int| 0 <= k < out@.len() implies p[k] == string_views(out@)[k] by {
                        assert(pieces(mid)[k] == p[k]);
                        assert(pieces(mid)[k] == string_views(out@)[k]);
                    }
                }
            }
            let piece = s.substring_char(start, i - 1).to_owned();
            out.push(piece);
            start = i + 1;
            proof {
                assert(string_views(out@) =~= p);
                assert(s@.subrange(start as int, i + 1) =~= Seq::<char>::empty());
            }
        } else {
            proof {
                let mid = s@.subrange(0, i as int);
                assert(pre.drop_last() =~= mid);
                if i >= 1 && s@[i - 1] == ',' && c == ' ' {
                    assert(start == i);
                }
                assert(!(pre.len() >= 2 && pre[pre.len() - 2] == ',' && pre[pre.len() - 1] == ' '));
                let q = pieces(mid);
                assert(pieces(pre) == q.update(q.len() - 1, q.last().push(pre.last())));
                assert(pre.last() == c);
                assert(s@.subrange(start as int, i + 1) =~= s@.subrange(start as int, i as int).push(c));
                assert(pieces(pre) =~= string_views(out@).push(s@.subrange(start as int, i + 1)));
            }
        }
        i = i + 1;
    }
    let last = s.substring_char(start, n).to_owned();
    out.push(last);
    proof {
        assert(s@.subrange(0, n as int) =~= s@);
        assert(string_views(out@) =~= pieces(s@));
    }
    out
}

/// A piece names a quarter when it is non-empty and holds `"T_"`.
pub open spec fn is_quarter_label(p: Seq<char>) -> bool {
    p.len() > 0 && contains(p, "T_"@)
}

/// The quarter labels among the pieces, in order.
pub open spec fn quarter_labels(ps: Seq<Seq<char>>) -> Seq<Seq<char>>
    decreases ps.len(),
{
    if ps.len() == 0 {
        Seq::empty()
    } else if is_quarter_label(ps.last()) {
        quarter_labels(ps.drop_last()).push(ps.last())
    } else {
        quarter_labels(ps.drop_last())
    }
}

/// Non-decreasing in code-point order.
pub open spec fn sorted_lex(v: Seq<Seq<char>>) -> bool {
    forall|i: int, j: int| 0 <= i < j < v.len() ==> !lex_less(v[j], v[i])
}

proof fn lemma_less_then_not_less(a: Seq<char>, b: Seq<char>, c: Seq<char>)
    requires
        lex_less(a, b),
        !lex_less(c, b),
    ensures
        lex_less(a, c),
        !lex_less(c, a),
{
    if b != c {
        crate::text::lemma_lex_less_total(b, c);
        crate::text::lemma_lex_less_transitive(a, b, c);
    }
    if lex_less(c, a) {
        crate::text::lemma_lex_less_transitive(c, a, c);
        crate::text::lemma_lex_less_irreflexive(c);
    }
}

/// The quarter labels listed in a range text, sorted.
pub fn available_quarters(ranges: &str) -> (r: Vec<String>)
    ensures
        sorted_lex(string_views(r@)),
        string_views(r@).to_multiset() == quarter_labels(pieces(ranges@)).to_multiset(),
{
    let parts = split_list(ranges);
    let ghost ps = string_views(parts@);
    let mut out: Vec<String> = Vec::new();
    let n = parts.len();
    let mut i: usize = 0;
    proof {
        assert(ps.subrange(0, 0) =~= Seq::<Seq<char>>::empty());
        assert(string_views(out@) =~= Seq::<Seq<char>>::empty());
    }
    while i < n
        invariant
            n == parts@.len(),
            ps == string_views(parts@),
            i <= n,
            sorted_lex(string_views(out@)),
            string_views(out@).to_multiset() == quarter_labels(ps.subrange(0, i as int)).to_multiset(),
        decreases n - i,
    {
        proof {
            assert(ps.subrange(0, i + 1).drop_last() =~= ps.subrange(0, i as int));
            assert(ps.subrange(0, i + 1).last() == parts@[i as int]@);
        }
        let part = &parts[i];
        if part.unicode_len() > 0 && contains_text(part.as_str(), "T_") {
            let mut p: usize = 0;
            while p < out.len() && !text_less(part.as_str(), out[p].as_str())
                invariant
                    p <= out@.len(),
                    forall|j: int| 0 <= j < p ==> !lex_less(part@, #[trigger] out@[j]@),
                decreases out@.len() - p,
            {
                p = p + 1;
            }
            let ghost before = string_views(out@);
            out.insert(p, part.clone());
            proof {
                let v = string_views(out@);
                let x = part@;
                assert(v =~= before.insert(p as int, x));
                vstd::seq_lib::to_multiset_insert(before, p as int, x);
                vstd::seq_lib::to_multiset_build(quarter_labels(ps.subrange(0, i as int)), x);
                assert forall|a: int, b: int| 0 <= a < b < v.len() implies !lex_less(v[b], v[a]) by {
                    if b < p {
                        assert(v[a] == before[a] && v[b] == before[b]);
                    } else if b == p {
                        assert(v[a] == before[a]);
                    } else if a > p {
                        assert(v[a] == before[a - 1] && v[b] == before[b - 1]);
                    } else {
                        assert(v[b] == before[b - 1]);
                        // x < before[p] <= before[b - 1]
                        assert(lex_less(x, before[p as int]));
                        if b - 1 > p {
                            assert(!lex_less(before[b - 1], before[p as int]));
                            lemma_less_then_not_less(x, before[p as int], before[b - 1]);
                        } else {
                            lemma_less_then_not_less(x, before[p as int], before[p as int]);
                        }
                        if a < p {
                            assert(v[a] == before[a]);
                            assert(!lex_less(before[p as int], before[a]));
                            if before[p as int] != before[a] {
                                crate::text::lemma_lex_less_total(before[p as int], before[a]);
                            }
                            assert(!lex_less(x, before[a]));
                            if lex_less(v[b], v[a]) {
                                lemma_less_then_not_less(before[a], before[p as int], before[b - 1]);
                                if b - 1 > p {
                                    assert(!lex_less(before[b - 1], before[p as int]));
                                }
                            }
                        }
                    }
                }
            }
        }
        i = i + 1;
    }
    proof {
        assert(ps.subrange(0, n as int) =~= ps);
    }
    out
}

} // verus!
