//! Character-level helpers: blank detection for envelope validation and
//! lexicographic ordering of directory entries.

use vstd::prelude::*;

verus! {

/// Whether a character counts as whitespace (the Unicode property that
/// `char::is_whitespace` decides); named here so that contracts can speak
/// of it.
pub uninterp spec fn is_white_char(c: char) -> bool;

/// Relies on char::is_whitespace: whether `c` has the Unicode whitespace
/// property, a fact of the character alone.
#[verifier::external_body]
fn char_is_whitespace(c: char) -> (r: bool)
    ensures
        r == is_white_char(c),
{
    c.is_whitespace()
}

/// A string is blank when every character is whitespace; an empty string is
/// blank. This is what `trim`-then-`is_empty` tests.
pub open spec fn blank(s: Seq<char>) -> bool {
    forall|i: int| 0 <= i < s.len() ==> is_white_char(#[trigger] s[i])
}

/// Whether `s` is empty or all whitespace.
pub fn is_blank(s: &str) -> (r: bool)
    ensures
        r == blank(s@),
{
    let n = s.unicode_len();
    let mut i: usize = 0;
    while i < n
        invariant
            i <= n,
            n == s@.len(),
            forall|j: int| 0 <= j < i ==> is_white_char(#[trigger] s@[j]),
        decreases n - i,
    {
        let c = s.get_char(i);
        if !char_is_whitespace(c) {
            return false;
        }
        i = i + 1;
    }
    true
}

/// Whether two strings hold the same characters.
pub fn str_eq(a: &str, b: &str) -> (r: bool)
    ensures
        r == (a@ == b@),
{
    let n = a.unicode_len();
    if n != b.unicode_len() {
        return false;
    }
    let mut i: usize = 0;
    while i < n
        invariant
            i <= n,
            n == a@.len(),
            n == b@.len(),
            forall|j: int| 0 <= j < i ==> a@[j] == b@[j],
        decreases n - i,
    {
        if a.get_char(i) != b.get_char(i) {
            return false;
        }
        i = i + 1;
    }
    proof {
        assert(a@ =~= b@);
    }
    true
}

/// Lexicographic order on character sequences by code point, the order in
/// which directory listings are returned. Code-point order coincides with
/// byte order of the UTF-8 encodings.
pub open spec fn lex_leq(a: Seq<char>, b: Seq<char>) -> bool
    decreases a.len(),
{
    if a.len() == 0 {
        true
    } else if b.len() == 0 {
        false
    } else if (a[0] as u32) == (b[0] as u32) {
        lex_leq(a.drop_first(), b.drop_first())
    } else {
        (a[0] as u32) < (b[0] as u32)
    }
}

/// The order is total: of any two sequences, one is below the other.
pub proof fn lemma_lex_total(a: Seq<char>, b: Seq<char>)
    ensures
        lex_leq(a, b) || lex_leq(b, a),
    decreases a.len(),
{
    if a.len() == 0 || b.len() == 0 {
    } else if (a[0] as u32) == (b[0] as u32) {
        lemma_lex_total(a.drop_first(), b.drop_first());
    }
}

/// The order is transitive.
pub proof fn lemma_lex_trans(a: Seq<char>, b: Seq<char>, c: Seq<char>)
    requires
        lex_leq(a, b),
        lex_leq(b, c),
    ensures
        lex_leq(a, c),
    decreases a.len(),
{
    if a.len() == 0 {
    } else if b.len() == 0 {
    } else if c.len() == 0 {
    } else {
        if (a[0] as u32) == (b[0] as u32) && (b[0] as u32) == (c[0] as u32) {
            lemma_lex_trans(a.drop_first(), b.drop_first(), c.drop_first());
        }
    }
}

/// Whether `a` comes at or before `b` in code-point order.
pub fn lex_le(a: &str, b: &str) -> (r: bool)
    ensures
        r == lex_leq(a@, b@),
    decreases a@.len(),
{
    let alen = a.unicode_len();
    let blen = b.unicode_len();
    if alen == 0 {
        true
    } else if blen == 0 {
        false
    } else {
        let x = a.get_char(0) as u32;
        let y = b.get_char(0) as u32;
        if x == y {
            let a2 = a.substring_char(1, alen);
            let b2 = b.substring_char(1, blen);
            proof {
                assert(a2@ =~= a@.drop_first());
                assert(b2@ =~= b@.drop_first());
            }
            lex_le(a2, b2)
        } else {
            x < y
        }
    }
}

/// A listing is sorted when every pair of entries is in lexicographic order.
pub open spec fn entries_sorted(s: Seq<Seq<char>>) -> bool {
    forall|i: int, j: int| 0 <= i < j < s.len() ==> #[trigger] lex_leq(s[i], s[j])
}

/// Inserting an element anywhere in a sequence adds it to the multiset of
/// elements and changes nothing else.
proof fn lemma_insert_to_multiset<A>(s: Seq<A>, i: int, a: A)
    requires
        0 <= i <= s.len(),
    ensures
        s.insert(i, a).to_multiset() == s.to_multiset().insert(a),
{
    broadcast use vstd::seq_lib::group_to_multiset_ensures;
    broadcast use vstd::multiset::group_multiset_axioms;

    let s2 = s.insert(i, a);
    assert(s2[i] == a);
    assert(s2.remove(i) =~= s);
    assert(s.to_multiset() =~= s2.to_multiset().remove(a));
    assert(s2.to_multiset().count(a) > 0);
    assert(s2.to_multiset() =~= s2.to_multiset().remove(a).insert(a)) by {
        let m = s2.to_multiset();
        assert forall|x: A| m.remove(a).insert(a).count(x) == m.count(x) by {}
    }
}

/// Sort a directory listing into ascending lexicographic (code point) order.
/// The result holds exactly the given entries.
pub fn sort_entries(entries: Vec<String>) -> (r: Vec<String>)
    ensures
        entries_sorted(r@.map_values(|e: String| e@)),
        r@.to_multiset() == entries@.to_multiset(),
{
    broadcast use vstd::seq_lib::group_to_multiset_ensures;
    broadcast use vstd::multiset::group_multiset_axioms;

    let mut rest = entries;
    let mut out: Vec<String> = Vec::new();
    proof {
        assert(out@.to_multiset().add(rest@.to_multiset()) =~= rest@.to_multiset());
    }
    while rest.len() != 0
        invariant
            entries_sorted(out@.map_values(|e: String| e@)),
            out@.to_multiset().add(rest@.to_multiset()) == entries@.to_multiset(),
        decreases rest@.len(),
    {
        let ghost prev_rest = rest@;
        let e = match rest.pop() {
            Some(e) => e,
            None => {
                proof {
                    assert(false);
                }
                String::new()
            },
        };
        proof {
            assert(prev_rest =~= rest@.push(e));
        }
        let mut p: usize = 0;
        while p < out.len() && lex_le(out[p].as_str(), e.as_str())
            invariant
                p <= out@.len(),
                forall|q: int| 0 <= q < p ==> lex_leq(#[trigger] out@[q]@, e@),
            decreases out@.len() - p,
        {
            p = p + 1;
        }
        let ghost outv = out@.map_values(|x: String| x@);
        proof {
            if p < out@.len() {
                assert(!lex_leq(out@[p as int]@, e@));
                lemma_lex_total(outv[p as int], e@);
                assert(lex_leq(e@, outv[p as int]));
            }
        }
        let ghost prev_out = out@;
        out.insert(p, e);
        proof {
            lemma_insert_to_multiset(prev_out, p as int, e);
            assert(out@.to_multiset() == prev_out.to_multiset().insert(e));
            vstd::seq_lib::to_multiset_build(rest@, e);
            assert(rest@.push(e).to_multiset() =~= rest@.to_multiset().insert(e));
            assert(prev_rest.to_multiset() == rest@.push(e).to_multiset());
            assert(out@.to_multiset().add(rest@.to_multiset()) =~= prev_out.to_multiset().add(
                prev_rest.to_multiset()));
            let outv2 = out@.map_values(|x: String| x@);
            assert(outv2 =~= outv.insert(p as int, e@)) by {
                assert forall|k: int| 0 <= k < out@.len() implies outv2[k] == outv.insert(
                    p as int,
                    e@,
                )[k] by {
                    if k < p {
                        assert(out@[k] == prev_out[k]);
                    } else if k == p {
                    } else {
                        assert(out@[k] == prev_out[k - 1]);
                    }
                }
            }
            assert forall|i: int, j: int| 0 <= i < j < outv2.len() implies #[trigger] lex_leq(
                outv2[i],
                outv2[j],
            ) by {
                let a = if i < p { outv[i] } else if i == p { e@ } else { outv[i - 1] };
                let b = if j < p { outv[j] } else if j == p { e@ } else { outv[j - 1] };
                assert(outv2[i] == a);
                assert(outv2[j] == b);
                if i < p && j == p {
                } else if i == p && j > p {
                    if j - 1 > p {
                        lemma_lex_trans(e@, outv[p as int], outv[j - 1]);
                    }
                } else if i < p && j > p {
                }
            }
        }
    }
    proof {
        assert(out@.to_multiset().add(rest@.to_multiset()) =~= out@.to_multiset()) by {
            assert(forall|x: String| !rest@.contains(x));
        }
    }
    out
}

} // verus!
