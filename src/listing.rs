//! The read side of the subscriptions: the listing of a guild or channel, and the
//! bounded suggestions offered while an operator types an account to unfollow.
use vstd::prelude::*;
use crate::order::{insert_in_order, listed_in_order};
use crate::render::push_char;
use crate::store::Subscription;

verus! {

/// The most suggestions offered at once.
pub const SUGGESTION_LIMIT: usize = 20;

/// Where a listing is asked from: a guild, or a channel outside any guild.
#[derive(Clone, Copy, Debug, PartialEq, Eq)]
pub enum Scope {
    Guild(u64),
    Channel(u64),
}

/// Whether subscription `s` belongs to the listing of `scope`.
pub open spec fn in_scope(scope: Scope) -> spec_fn(Subscription) -> bool {
    |s: Subscription|
        match scope {
            Scope::Guild(g) => s.guild == Some(g),
            Scope::Channel(c) => s.channel == c,
        }
}

/// The scope of a request made in `channel` of `guild`, if any.
pub fn scope_of(guild: Option<u64>, channel: u64) -> (r: Scope)
    ensures
        r == (match guild {
            Some(g) => Scope::Guild(g),
            None => Scope::Channel(channel),
        }),
{
    match guild {
        Some(g) => Scope::Guild(g),
        None => Scope::Channel(channel),
    }
}

/// A character with the ASCII capitals taken to their small letters.
pub open spec fn folded(c: char) -> int {
    if 'A' <= c && c <= 'Z' {
        c as int + 32
    } else {
        c as int
    }
}

/// Whether `needle` stands in `hay` at position `k`, ignoring ASCII case.
pub open spec fn matches_at(needle: Seq<char>, hay: Seq<char>, k: int) -> bool {
    &&& 0 <= k
    &&& k + needle.len() <= hay.len()
    &&& forall|j: int| 0 <= j < needle.len() ==> folded(#[trigger] hay[k + j]) == folded(needle[j])
}

/// Whether `needle` occurs in `hay`, ignoring ASCII case.
pub open spec fn occurs_in(needle: Seq<char>, hay: Seq<char>) -> bool {
    exists|k: int| #[trigger] matches_at(needle, hay, k)
}

/// Whether subscription `s` is offered as a suggestion for `term` in `channel`: its
/// handle holds the term, ignoring ASCII case.
pub open spec fn suggested(channel: u64, term: Seq<char>) -> spec_fn(Subscription) -> bool {
    |s: Subscription| s.channel == channel && occurs_in(term, s.handle@)
}

/// The rows of `subs` that `pred` selects, in listing order.
fn select_in_order(subs: &Vec<Subscription>, Ghost(pred): Ghost<spec_fn(Subscription) -> bool>, scope: Option<Scope>, channel: u64, term: &str) -> (r: Vec<Subscription>)
    requires
        scope is Some ==> pred == in_scope(scope->0),
        scope is None ==> pred == suggested(channel, term@),
    ensures
        listed_in_order(r@),
        r@.to_multiset() == subs@.filter(pred).to_multiset(),
{
    let mut out: Vec<Subscription> = Vec::new();
    let mut i: usize = 0;
    proof {
        reveal(Seq::filter);
        assert(subs@.subrange(0, 0).filter(pred) =~= out@);
    }
    while i < subs.len()
        invariant
            i <= subs@.len(),
            listed_in_order(out@),
            out@.to_multiset() == subs@.subrange(0, i as int).filter(pred).to_multiset(),
            scope is Some ==> pred == in_scope(scope->0),
            scope is None ==> pred == suggested(channel, term@),
        decreases subs@.len() - i,
    {
        proof {
            reveal(Seq::filter);
            broadcast use vstd::seq_lib::group_to_multiset_ensures;
            assert(subs@.subrange(0, i + 1).drop_last() =~= subs@.subrange(0, i as int));
            assert(subs@.subrange(0, i + 1).last() == subs@[i as int]);
        }
        let s = &subs[i];
        let keep = match scope {
            Some(Scope::Guild(g)) => s.guild == Some(g),
            Some(Scope::Channel(c)) => s.channel == c,
            None => s.channel == channel && text_occurs(term, s.handle.as_str()),
        };
        if keep {
            insert_in_order(&mut out, s.duplicate());
        }
        i = i + 1;
    }
    proof {
        assert(subs@.subrange(0, subs@.len() as int) =~= subs@);
    }
    out
}

/// The character `c` with an ASCII capital taken to its small letter.
fn fold_char(c: char) -> (r: u32)
    ensures
        r as int == folded(c),
{
    if 'A' <= c && c <= 'Z' {
        c as u32 + 32
    } else {
        c as u32
    }
}

/// Whether `needle` stands in `hay` at position `k`, ignoring ASCII case.
fn text_matches_at(needle: &str, hay: &str, k: usize) -> (r: bool)
    requires
        k + needle@.len() <= hay@.len(),
        hay@.len() <= usize::MAX,
    ensures
        r == matches_at(needle@, hay@, k as int),
{
    let m = needle.unicode_len();
    let mut j: usize = 0;
    while j < m
        invariant
            m == needle@.len(),
            k + m <= hay@.len(),
            hay@.len() <= usize::MAX,
            j <= m,
            forall|i: int| 0 <= i < j ==> folded(#[trigger] hay@[k + i]) == folded(needle@[i]),
        decreases m - j,
    {
        if fold_char(hay.get_char(k + j)) != fold_char(needle.get_char(j)) {
            return false;
        }
        j = j + 1;
    }
    true
}

/// Whether `needle` occurs in `hay`, ignoring ASCII case.
pub fn text_occurs(needle: &str, hay: &str) -> (r: bool)
    ensures
        r == occurs_in(needle@, hay@),
{
    let m = needle.unicode_len();
    let n = hay.unicode_len();
    if m > n {
        return false;
    }
    let last = n - m;
    let mut k: usize = 0;
    loop
        invariant
            m == needle@.len(),
            n == hay@.len(),
            m <= n,
            last == n - m,
            k <= last,
            forall|j: int| 0 <= j < k ==> !#[trigger] matches_at(needle@, hay@, j),
        decreases last - k,
    {
        if text_matches_at(needle, hay, k) {
            return true;
        }
        if k == last {
            return false;
        }
        k = k + 1;
    }
}

/// The subscriptions of `scope`, ordered by handle, then channel, then account.
pub fn list_subscriptions(subs: &Vec<Subscription>, scope: Scope) -> (r: Vec<Subscription>)
    ensures
        listed_in_order(r@),
        r@.to_multiset() == subs@.filter(in_scope(scope)).to_multiset(),
{
    select_in_order(subs, Ghost(in_scope(scope)), Some(scope), 0, "")
}

/// At most `limit` subscriptions of `channel` whose handle holds `term`: the first
/// ones in the order of handle, then account.
pub fn search_subscriptions(subs: &Vec<Subscription>, channel: u64, term: &str, limit: usize) -> (r: Vec<Subscription>)
    ensures
        exists|all: Seq<Subscription>|
            listed_in_order(all) && all.to_multiset() == subs@.filter(suggested(channel, term@)).to_multiset()
                && r@ == all.take(if limit < all.len() { limit as int } else { all.len() as int }),
{
    let mut all = select_in_order(subs, Ghost(suggested(channel, term@)), None, channel, term);
    let ghost full = all@;
    if limit < all.len() {
        all.truncate(limit);
    }
    proof {
        assert(all@ =~= full.take(if limit < full.len() { limit as int } else { full.len() as int }));
    }
    all
}

/// The decimal digit `d`.
pub open spec fn digit_char(d: nat) -> char {
    if d == 0 { '0' } else if d == 1 { '1' } else if d == 2 { '2' } else if d == 3 { '3' }
    else if d == 4 { '4' } else if d == 5 { '5' } else if d == 6 { '6' } else if d == 7 { '7' }
    else if d == 8 { '8' } else { '9' }
}

/// The decimal notation of `n`.
pub open spec fn decimal(n: nat) -> Seq<char>
    decreases n,
{
    if n < 10 {
        seq![digit_char(n)]
    } else {
        decimal(n / 10).push(digit_char(n % 10))
    }
}

fn digit(d: u64) -> (c: char)
    requires
        d < 10,
    ensures
        c == digit_char(d as nat),
{
    if d == 0 { '0' } else if d == 1 { '1' } else if d == 2 { '2' } else if d == 3 { '3' }
    else if d == 4 { '4' } else if d == 5 { '5' } else if d == 6 { '6' } else if d == 7 { '7' }
    else if d == 8 { '8' } else { '9' }
}

/// Writes `n` in decimal.
pub fn decimal_text(n: u64) -> (r: String)
    ensures
        r@ == decimal(n as nat),
    decreases n,
{
    if n < 10 {
        let mut s = String::new();
        push_char(&mut s, digit(n));
        proof {
            assert(s@ =~= seq![digit_char(n as nat)]);
        }
        s
    } else {
        let mut s = decimal_text(n / 10);
        push_char(&mut s, digit(n % 10));
        s
    }
}

/// The line that lists one subscription.
pub open spec fn listing_line(s: Subscription) -> Seq<char> {
    "- "@ + s.handle@ + " — <#"@ + decimal(s.channel as nat) + ">\n"@
}

/// The lines that list `rows`, in order.
pub open spec fn listing_lines(rows: Seq<Subscription>) -> Seq<char>
    decreases rows.len(),
{
    if rows.len() == 0 {
        Seq::empty()
    } else {
        listing_lines(rows.drop_last()) + listing_line(rows.last())
    }
}

/// The reply to a listing request: one line per subscription, or a note that there
/// is none.
pub fn listing_text(rows: &Vec<Subscription>) -> (r: String)
    ensures
        rows@.len() == 0 ==> r@ == "No follows in this guild"@,
        rows@.len() > 0 ==> r@ == listing_lines(rows@),
{
    if rows.len() == 0 {
        return String::from_str("No follows in this guild");
    }
    let mut msg = String::new();
    let mut i: usize = 0;
    while i < rows.len()
        invariant
            i <= rows@.len(),
            msg@ == listing_lines(rows@.subrange(0, i as int)),
        decreases rows@.len() - i,
    {
        proof {
            assert(rows@.subrange(0, i + 1).drop_last() =~= rows@.subrange(0, i as int));
            assert(rows@.subrange(0, i + 1).last() == rows@[i as int]);
        }
        let s = &rows[i];
        msg.append("- ");
        msg.append(s.handle.as_str());
        msg.append(" — <#");
        let digits = decimal_text(s.channel);
        msg.append(digits.as_str());
        msg.append(">\n");
        proof {
            assert(msg@ =~= listing_lines(rows@.subrange(0, i as int)) + listing_line(rows@[i as int]));
        }
        i = i + 1;
    }
    proof {
        assert(rows@.subrange(0, rows@.len() as int) =~= rows@);
    }
    msg
}

} // verus!
