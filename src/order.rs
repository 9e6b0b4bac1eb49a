//! Lexicographic order on texts, compared code point by code point.
//!
//! For Rust strings this is the order of `str`'s `Ord`: UTF-8 keeps the order
//! of code points byte by byte.
use vstd::prelude::*;

verus! {

/// `a` and `b` agree on their first `k` characters.
pub open spec fn agree_below(a: Seq<char>, b: Seq<char>, k: int) -> bool {
    forall|t: int| 0 <= t < k ==> a[t] == b[t]
}

/// `k` is where `a` first departs from `b`, and there `a` is the smaller:
/// either `a` ends at `k` while `b` goes on, or `a[k]` is below `b[k]`.
pub open spec fn precedes_at(a: Seq<char>, b: Seq<char>, k: int) -> bool {
    &&& 0 <= k <= a.len()
    &&& k <= b.len()
    &&& agree_below(a, b, k)
    &&& if k == a.len() {
        k < b.len()
    } else {
        k < b.len() && (a[k] as int) < (b[k] as int)
    }
}

/// `a` sorts strictly before `b`.
pub open spec fn text_lt(a: Seq<char>, b: Seq<char>) -> bool {
    exists|k: int| #[trigger] precedes_at(a, b, k)
}

/// No text sorts before itself.
pub proof fn lemma_text_lt_irreflexive(a: Seq<char>)
    ensures
        !text_lt(a, a),
{
}

/// Two texts are never each before the other.
pub proof fn lemma_text_lt_asymmetric(a: Seq<char>, b: Seq<char>)
    requires
        text_lt(a, b),
    ensures
        !text_lt(b, a),
{
    let k1 = choose|k: int| #[trigger] precedes_at(a, b, k);
    if text_lt(b, a) {
        let k2 = choose|k: int| #[trigger] precedes_at(b, a, k);
        if k1 < k2 {
            assert(b[k1] == a[k1]);
        } else if k2 < k1 {
            assert(a[k2] == b[k2]);
        }
    }
}

/// The order is transitive.
pub proof fn lemma_text_lt_transitive(a: Seq<char>, b: Seq<char>, c: Seq<char>)
    requires
        text_lt(a, b),
        text_lt(b, c),
    ensures
        text_lt(a, c),
{
    let k1 = choose|k: int| #[trigger] precedes_at(a, b, k);
    let k2 = choose|k: int| #[trigger] precedes_at(b, c, k);
    if k1 < k2 {
        assert(b[k1] == c[k1]);
        assert(precedes_at(a, c, k1));
    } else if k2 < k1 {
        assert(a[k2] == b[k2]);
        assert(precedes_at(a, c, k2));
    } else {
        assert(precedes_at(a, c, k1));
    }
}

/// A text that sorts before another differs from it.
pub proof fn lemma_text_lt_unequal(a: Seq<char>, b: Seq<char>)
    requires
        text_lt(a, b),
    ensures
        a != b,
{
    lemma_text_lt_irreflexive(a);
}

/// Compares `text[a_start..a_end]` with `text[b_start..b_end]`.
pub fn compare_ranges(
    text: &Vec<char>,
    a_start: usize,
    a_end: usize,
    b_start: usize,
    b_end: usize,
) -> (r: std::cmp::Ordering)
    requires
        a_start <= a_end <= text@.len(),
        b_start <= b_end <= text@.len(),
    ensures
        ({
            let a = text@.subrange(a_start as int, a_end as int);
            let b = text@.subrange(b_start as int, b_end as int);
            &&& (r == std::cmp::Ordering::Less) <==> text_lt(a, b)
            &&& (r == std::cmp::Ordering::Equal) <==> a == b
            &&& (r == std::cmp::Ordering::Greater) <==> text_lt(b, a)
        }),
{
    let ghost a = text@.subrange(a_start as int, a_end as int);
    let ghost b = text@.subrange(b_start as int, b_end as int);
    let a_len = a_end - a_start;
    let b_len = b_end - b_start;
    let mut k: usize = 0;
    while k < a_len && k < b_len && text[a_start + k] == text[b_start + k]
        invariant
            k <= a_len,
            k <= b_len,
            a_len == a.len(),
            b_len == b.len(),
            a == text@.subrange(a_start as int, a_end as int),
            b == text@.subrange(b_start as int, b_end as int),
            a_start <= a_end <= text@.len(),
            b_start <= b_end <= text@.len(),
            agree_below(a, b, k as int),
        decreases a_len - k,
    {
        k = k + 1;
    }
    if k < a_len && k < b_len {
        let x = text[a_start + k];
        let y = text[b_start + k];
        if x < y {
            assert(precedes_at(a, b, k as int));
            proof {
                lemma_text_lt_asymmetric(a, b);
                lemma_text_lt_unequal(a, b);
            }
            std::cmp::Ordering::Less
        } else {
            assert(x != y);
            assert(agree_below(b, a, k as int));
            assert(precedes_at(b, a, k as int));
            proof {
                lemma_text_lt_asymmetric(b, a);
                lemma_text_lt_unequal(b, a);
            }
            std::cmp::Ordering::Greater
        }
    } else if k == a_len && k == b_len {
        assert(a =~= b);
        proof {
            lemma_text_lt_irreflexive(a);
        }
        std::cmp::Ordering::Equal
    } else if k == a_len {
        assert(precedes_at(a, b, k as int));
        proof {
            lemma_text_lt_asymmetric(a, b);
            lemma_text_lt_unequal(a, b);
        }
        std::cmp::Ordering::Less
    } else {
        assert(agree_below(b, a, k as int));
        assert(precedes_at(b, a, k as int));
        proof {
            lemma_text_lt_asymmetric(b, a);
            lemma_text_lt_unequal(b, a);
        }
        std::cmp::Ordering::Greater
    }
}

} // verus!
