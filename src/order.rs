//! The order in which subscriptions are listed: by handle, then channel, then account.
use vstd::prelude::*;
use crate::store::Subscription;

verus! {

/// Lexicographic order of texts, character by character.
pub open spec fn text_lt(a: Seq<char>, b: Seq<char>) -> bool
    decreases a.len(),
{
    if a.len() == 0 {
        b.len() > 0
    } else if b.len() == 0 {
        false
    } else if a[0] != b[0] {
        a[0] < b[0]
    } else {
        text_lt(a.drop_first(), b.drop_first())
    }
}

/// Whether `a` is listed strictly before `b`.
pub open spec fn row_lt(a: Subscription, b: Subscription) -> bool {
    if a.handle@ != b.handle@ {
        text_lt(a.handle@, b.handle@)
    } else if a.channel != b.channel {
        a.channel < b.channel
    } else {
        text_lt(a.did@, b.did@)
    }
}

/// Whether `a` may be listed before `b`.
pub open spec fn row_le(a: Subscription, b: Subscription) -> bool {
    row_lt(a, b) || (a.handle@ == b.handle@ && a.channel == b.channel && a.did@ == b.did@)
}

/// Whether the rows are in listing order.
pub open spec fn listed_in_order(s: Seq<Subscription>) -> bool {
    forall|i: int, j: int| 0 <= i < j < s.len() ==> row_le(#[trigger] s[i], #[trigger] s[j])
}

proof fn lemma_text_lt_total(a: Seq<char>, b: Seq<char>)
    ensures
        a != b ==> text_lt(a, b) || text_lt(b, a),
        !(text_lt(a, b) && text_lt(b, a)),
        !text_lt(a, a),
    decreases a.len(),
{
    if a.len() > 0 && b.len() > 0 && a[0] == b[0] {
        lemma_text_lt_total(a.drop_first(), b.drop_first());
        if a != b {
            assert(a.drop_first() != b.drop_first()) by {
                if a.drop_first() == b.drop_first() {
                    assert(a =~= seq![a[0]] + a.drop_first());
                    assert(b =~= seq![b[0]] + b.drop_first());
                }
            }
        }
    } else if a.len() == 0 && b.len() == 0 {
        assert(a =~= b);
    } else if a.len() > 0 && b.len() > 0 {
        assert(a[0] != b[0]);
    }
    if a.len() > 0 {
        lemma_text_lt_total(a.drop_first(), a.drop_first());
    }
}

proof fn lemma_text_lt_trans(a: Seq<char>, b: Seq<char>, c: Seq<char>)
    requires
        text_lt(a, b),
        text_lt(b, c),
    ensures
        text_lt(a, c),
    decreases a.len(),
{
    if a.len() > 0 && b.len() > 0 && c.len() > 0 && a[0] == b[0] && b[0] == c[0] {
        lemma_text_lt_trans(a.drop_first(), b.drop_first(), c.drop_first());
    }
}

/// The listing order is a total preorder on rows.
proof fn lemma_row_order(a: Subscription, b: Subscription, c: Subscription)
    ensures
        !row_lt(a, b) ==> row_le(b, a),
        row_le(a, b) && row_le(b, c) ==> row_le(a, c),
        row_lt(a, b) && row_le(b, c) ==> row_lt(a, c),
{
    lemma_text_lt_total(a.handle@, b.handle@);
    lemma_text_lt_total(a.did@, b.did@);
    lemma_text_lt_total(a.handle@, c.handle@);
    lemma_text_lt_total(a.did@, c.did@);
    lemma_text_lt_total(b.handle@, c.handle@);
    lemma_text_lt_total(b.did@, c.did@);
    if text_lt(a.handle@, b.handle@) && text_lt(b.handle@, c.handle@) {
        lemma_text_lt_trans(a.handle@, b.handle@, c.handle@);
    }
    if text_lt(a.did@, b.did@) && text_lt(b.did@, c.did@) {
        lemma_text_lt_trans(a.did@, b.did@, c.did@);
    }
}

/// Whether `a` comes strictly before `b` in lexicographic order.
pub fn text_less(a: &str, b: &str) -> (r: bool)
    ensures
        r == text_lt(a@, b@),
{
    let n = a.unicode_len();
    let m = b.unicode_len();
    let mut i: usize = 0;
    proof {
        assert(a@.subrange(0, n as int) =~= a@);
        assert(b@.subrange(0, m as int) =~= b@);
    }
    while i < n && i < m
        invariant
            n == a@.len(),
            m == b@.len(),
            i <= n,
            i <= m,
            text_lt(a@, b@) == text_lt(a@.subrange(i as int, n as int), b@.subrange(i as int, m as int)),
        decreases n - i,
    {
        let x = a.get_char(i);
        let y = b.get_char(i);
        let ghost sa = a@.subrange(i as int, n as int);
        let ghost sb = b@.subrange(i as int, m as int);
        assert(sa[0] == x && sb[0] == y);
        if x != y {
            return x < y;
        }
        assert(sa.drop_first() =~= a@.subrange(i + 1, n as int));
        assert(sb.drop_first() =~= b@.subrange(i + 1, m as int));
        i = i + 1;
    }
    i == n && i < m
}

/// Whether row `a` is listed strictly before row `b`.
pub fn row_less(a: &Subscription, b: &Subscription) -> (r: bool)
    ensures
        r == row_lt(*a, *b),
{
    if !crate::text::same_text(a.handle.as_str(), b.handle.as_str()) {
        text_less(a.handle.as_str(), b.handle.as_str())
    } else if a.channel != b.channel {
        a.channel < b.channel
    } else {
        text_less(a.did.as_str(), b.did.as_str())
    }
}

/// Puts `x` into the ordered rows `out`, after the rows it does not precede.
pub fn insert_in_order(out: &mut Vec<Subscription>, x: Subscription)
    requires
        listed_in_order(old(out)@),
    ensures
        listed_in_order(final(out)@),
        final(out)@.to_multiset() == old(out)@.to_multiset().insert(x),
{
    let n = out.len();
    let mut pos: usize = 0;
    while pos < n && !row_less(&x, &out[pos])
        invariant
            n == out@.len(),
            pos <= n,
            forall|k: int| 0 <= k < pos ==> !row_lt(x, #[trigger] out@[k]),
        decreases n - pos,
    {
        pos = pos + 1;
    }
    let ghost before = out@;
    out.insert(pos, x);
    proof {
        broadcast use vstd::seq_lib::group_to_multiset_ensures;
        let after = out@;
        assert(after == before.insert(pos as int, x));
        assert forall|i: int, j: int| 0 <= i < j < after.len() implies row_le(
            #[trigger] after[i],
            #[trigger] after[j],
        ) by {
            if j < pos {
                assert(after[i] == before[i] && after[j] == before[j]);
            } else if j == pos {
                assert(after[i] == before[i]);
                lemma_row_order(x, before[i], x);
            } else if i == pos {
                assert(after[j] == before[j - 1]);
                lemma_row_order(x, before[pos as int], before[j - 1]);
                if j - 1 > pos {
                    assert(row_le(before[pos as int], before[j - 1]));
                }
            } else if i < pos {
                assert(after[i] == before[i] && after[j] == before[j - 1]);
            } else {
                assert(after[i] == before[i - 1] && after[j] == before[j - 1]);
            }
        }
    }
}

} // verus!
