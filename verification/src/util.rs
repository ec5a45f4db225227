//! Verified helpers over strings, byte slices and label lists that the
//! store, the placement engine and the reconciler share.

use vstd::prelude::*;

verus! {

/// Strict lexicographic order over character sequences, by code point.
pub open spec fn lex_lt(a: Seq<char>, b: Seq<char>) -> bool
    decreases a.len(),
{
    if b.len() == 0 {
        false
    } else if a.len() == 0 {
        true
    } else if a[0] == b[0] {
        lex_lt(a.skip(1), b.skip(1))
    } else {
        (a[0] as u32) < (b[0] as u32)
    }
}

/// If two sequences agree on a prefix, their order is decided by the rest.
proof fn lemma_lex_lt_skip(a: Seq<char>, b: Seq<char>, i: int)
    requires
        0 <= i <= a.len(),
        i <= b.len(),
        forall|j: int| 0 <= j < i ==> a[j] == b[j],
    ensures
        lex_lt(a, b) == lex_lt(a.skip(i), b.skip(i)),
    decreases i,
{
    if i > 0 {
        assert(a.len() > 0 && b.len() > 0);
        assert(a[0] == b[0]);
        assert(a.skip(1).skip(i - 1) =~= a.skip(i));
        assert(b.skip(1).skip(i - 1) =~= b.skip(i));
        assert(forall|j: int| 0 <= j < i - 1 ==> a.skip(1)[j] == b.skip(1)[j]);
        lemma_lex_lt_skip(a.skip(1), b.skip(1), i - 1);
    } else {
        assert(a.skip(0) =~= a);
        assert(b.skip(0) =~= b);
    }
}

/// Distinct characters have distinct code points.
proof fn lemma_char_inj(x: char, y: char)
    requires
        x != y,
    ensures
        (x as u32) != (y as u32),
{
}

/// The lexicographic order is total: two sequences are ordered one way,
/// the other, or equal.
pub proof fn lemma_lex_lt_total(a: Seq<char>, b: Seq<char>)
    ensures
        lex_lt(a, b) || lex_lt(b, a) || a == b,
    decreases a.len(),
{
    if a.len() == 0 && b.len() == 0 {
        assert(a =~= b);
    } else if a.len() > 0 && b.len() > 0 {
        let a0 = a[0];
        let b0 = b[0];
        if a0 == b0 {
            lemma_lex_lt_total(a.skip(1), b.skip(1));
            if a.skip(1) == b.skip(1) {
                assert(a.skip(1).len() == a.len() - 1);
                assert(b.skip(1).len() == b.len() - 1);
                assert(a.len() == b.len());
                assert(a =~= b) by {
                    assert(forall|i: int|
                        1 <= i < a.len() ==> a[i] == a.skip(1)[i - 1] && b[i] == b.skip(1)[i - 1]);
                }
            }
        } else {
            lemma_char_inj(a0, b0);
            assert((a0 as u32) != (b0 as u32));
            if (a0 as u32) < (b0 as u32) {
                assert(lex_lt(a, b));
            } else {
                assert((b0 as u32) < (a0 as u32));
                assert(lex_lt(b, a));
            }
        }
    } else if a.len() == 0 {
        assert(lex_lt(a, b));
    } else {
        assert(lex_lt(b, a));
    }
}

/// The lexicographic order is transitive.
pub proof fn lemma_lex_lt_trans(a: Seq<char>, b: Seq<char>, c: Seq<char>)
    requires
        lex_lt(a, b),
        lex_lt(b, c),
    ensures
        lex_lt(a, c),
    decreases b.len(),
{
    assert(b.len() > 0 && c.len() > 0);
    if a.len() > 0 {
        if a[0] == b[0] && b[0] == c[0] {
            lemma_lex_lt_trans(a.skip(1), b.skip(1), c.skip(1));
        }
    }
}

/// Whether `a` orders strictly before `b`, by code point.
#[verifier::rlimit(50)]
pub fn str_lt(a: &str, b: &str) -> (r: bool)
    ensures
        r == lex_lt(a@, b@),
{
    let a_len = a.unicode_len();
    let b_len = b.unicode_len();
    let mut i: usize = 0;
    loop
        invariant
            i <= a_len,
            i <= b_len,
            a_len == a@.len(),
            b_len == b@.len(),
            forall|j: int| 0 <= j < i ==> a@[j] == b@[j],
        decreases a_len - i,
    {
        if i == a_len || i == b_len {
            proof {
                lemma_lex_lt_skip(a@, b@, i as int);
            }
            return a_len < b_len;
        }
        let ca = a.get_char(i);
        let cb = b.get_char(i);
        if ca as u32 != cb as u32 {
            proof {
                lemma_lex_lt_skip(a@, b@, i as int);
                assert(a@.skip(i as int)[0] == a@[i as int]);
                assert(b@.skip(i as int)[0] == b@[i as int]);
            }
            return (ca as u32) < (cb as u32);
        }
        proof {
            assert(ca == cb);
        }
        i = i + 1;
    }
}

/// Whether two string slices hold the same characters.
pub fn str_eq(a: &str, b: &str) -> (r: bool)
    ensures
        r == (a@ == b@),
{
    let a_len = a.unicode_len();
    let b_len = b.unicode_len();
    if a_len != b_len {
        return false;
    }
    let mut i: usize = 0;
    while i < a_len
        invariant
            i <= a_len,
            a_len == a@.len(),
            a_len == b@.len(),
            forall|j: int| 0 <= j < i ==> a@[j] == b@[j],
        decreases a_len - i,
    {
        if a.get_char(i) != b.get_char(i) {
            return false;
        }
        i = i + 1;
    }
    proof {
        assert(a@ =~= b@);
    }
    true
}

/// Whether two byte slices hold the same bytes.
pub fn bytes_eq(a: &[u8], b: &[u8]) -> (r: bool)
    ensures
        r == (a@ == b@),
{
    if a.len() != b.len() {
        return false;
    }
    let mut i: usize = 0;
    while i < a.len()
        invariant
            i <= a@.len(),
            a@.len() == b@.len(),
            forall|j: int| 0 <= j < i ==> a@[j] == b@[j],
        decreases a@.len() - i,
    {
        if a[i] != b[i] {
            return false;
        }
        i = i + 1;
    }
    proof {
        assert(a@ =~= b@);
    }
    true
}

/// The value bound to `key` in an association list, searching from the
/// front, or `None` when the key is absent.
pub open spec fn assoc_lookup(pairs: Seq<(String, String)>, key: Seq<char>) -> Option<Seq<char>>
    decreases pairs.len(),
{
    if pairs.len() == 0 {
        None
    } else if pairs[0].0@ == key {
        Some(pairs[0].1@)
    } else {
        assoc_lookup(pairs.skip(1), key)
    }
}

proof fn lemma_assoc_lookup_skip(pairs: Seq<(String, String)>, key: Seq<char>, i: int)
    requires
        0 <= i <= pairs.len(),
        forall|j: int| 0 <= j < i ==> pairs[j].0@ != key,
    ensures
        assoc_lookup(pairs, key) == assoc_lookup(pairs.skip(i), key),
    decreases i,
{
    if i > 0 {
        assert(pairs[0].0@ != key);
        assert(pairs.skip(1).skip(i - 1) =~= pairs.skip(i));
        assert(forall|j: int| 0 <= j < i - 1 ==> pairs.skip(1)[j] == pairs[j + 1]);
        lemma_assoc_lookup_skip(pairs.skip(1), key, i - 1);
    } else {
        assert(pairs.skip(0) =~= pairs);
    }
}

/// How a lookup behaves after one binding is appended: an earlier binding
/// still wins; otherwise the new binding answers for its own key.
pub proof fn lemma_assoc_push(pairs: Seq<(String, String)>, p: (String, String), x: Seq<char>)
    ensures
        assoc_lookup(pairs.push(p), x) == (if assoc_lookup(pairs, x) is Some {
            assoc_lookup(pairs, x)
        } else if x == p.0@ {
            Some(p.1@)
        } else {
            None
        }),
    decreases pairs.len(),
{
    let s1 = pairs.push(p);
    if pairs.len() == 0 {
        assert(s1.len() == 1);
        assert(s1[0] == p);
        assert(s1.skip(1) =~= Seq::<(String, String)>::empty());
        assert(assoc_lookup(s1.skip(1), x) is None);
        if x == p.0@ {
            assert(assoc_lookup(s1, x) == Some(p.1@));
        } else {
            assert(assoc_lookup(s1, x) is None);
        }
    } else {
        assert(s1[0] == pairs[0]);
        if pairs[0].0@ == x {
            assert(assoc_lookup(s1, x) == Some(pairs[0].1@));
            assert(assoc_lookup(pairs, x) == Some(pairs[0].1@));
        } else {
            assert(s1.skip(1) =~= pairs.skip(1).push(p));
            lemma_assoc_push(pairs.skip(1), p, x);
            assert(assoc_lookup(s1, x) == assoc_lookup(s1.skip(1), x));
            assert(assoc_lookup(pairs, x) == assoc_lookup(pairs.skip(1), x));
        }
    }
}

/// A lookup answers exactly when some binding carries the key.
pub proof fn lemma_assoc_some_iff(pairs: Seq<(String, String)>, x: Seq<char>)
    ensures
        (assoc_lookup(pairs, x) is Some) <==> exists|m: int|
            0 <= m < pairs.len() && pairs[m].0@ == x,
    decreases pairs.len(),
{
    if pairs.len() > 0 {
        if pairs[0].0@ == x {
            assert(pairs[0].0@ == x);
        } else {
            lemma_assoc_some_iff(pairs.skip(1), x);
            if assoc_lookup(pairs, x) is Some {
                let m = choose|m: int| 0 <= m < pairs.skip(1).len() && pairs.skip(1)[m].0@ == x;
                assert(pairs[m + 1].0@ == x);
            }
            if exists|m: int| 0 <= m < pairs.len() && pairs[m].0@ == x {
                let m = choose|m: int| 0 <= m < pairs.len() && pairs[m].0@ == x;
                assert(m >= 1);
                assert(pairs.skip(1)[m - 1].0@ == x);
            }
        }
    }
}

/// Looks a key up in an association list of strings.
pub fn assoc_get<'a>(pairs: &'a Vec<(String, String)>, key: &str) -> (r: Option<&'a String>)
    ensures
        match r {
            Some(v) => assoc_lookup(pairs@, key@) == Some(v@),
            None => assoc_lookup(pairs@, key@) is None,
        },
{
    let mut i: usize = 0;
    while i < pairs.len()
        invariant
            i <= pairs@.len(),
            forall|j: int| 0 <= j < i ==> pairs@[j].0@ != key@,
        decreases pairs@.len() - i,
    {
        if str_eq(pairs[i].0.as_str(), key) {
            proof {
                lemma_assoc_lookup_skip(pairs@, key@, i as int);
                assert(pairs@.skip(i as int)[0] == pairs@[i as int]);
            }
            return Some(&pairs[i].1);
        }
        i = i + 1;
    }
    proof {
        lemma_assoc_lookup_skip(pairs@, key@, pairs@.len() as int);
    }
    None
}

/// Whether some string of `items` holds the same characters as `x`.
pub open spec fn seq_contains_str(items: Seq<String>, x: Seq<char>) -> bool {
    exists|i: int| 0 <= i < items.len() && items[i]@ == x
}

pub broadcast proof fn lemma_contains_str_push(items: Seq<String>, v: String, x: Seq<char>)
    ensures
        #[trigger] seq_contains_str(items.push(v), x) <==> (seq_contains_str(items, x) || v@ == x),
{
    if seq_contains_str(items, x) {
        let i = choose|i: int| 0 <= i < items.len() && items[i]@ == x;
        assert(items.push(v)[i]@ == x);
    }
    if v@ == x {
        assert(items.push(v)[items.len() as int]@ == x);
    }
    if seq_contains_str(items.push(v), x) && v@ != x {
        let i = choose|i: int| 0 <= i < items.push(v).len() && items.push(v)[i]@ == x;
        assert(items[i]@ == x);
    }
}

/// Whether `items` holds a string equal to `x`.
pub fn vec_contains_str(items: &Vec<String>, x: &str) -> (r: bool)
    ensures
        r == seq_contains_str(items@, x@),
{
    let mut i: usize = 0;
    while i < items.len()
        invariant
            i <= items@.len(),
            forall|j: int| 0 <= j < i ==> items@[j]@ != x@,
        decreases items@.len() - i,
    {
        if str_eq(items[i].as_str(), x) {
            return true;
        }
        i = i + 1;
    }
    false
}

} // verus!
