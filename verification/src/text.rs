//! Character-level views of labels: their order, their byte length, and
//! how two labels compare position by position.

use vstd::prelude::*;
use vstd::relations::{sorted_by, total_ordering};
use vstd::utf8::{encode_scalar, encode_utf8};

verus! {

broadcast use vstd::string::group_string_axioms;

/// The characters of a string.
pub fn char_vec(s: &str) -> (v: Vec<char>)
    ensures
        v@ == s@,
{
    let mut v: Vec<char> = Vec::new();
    for c in it: s.chars()
        invariant
            v@ == it.seq().take(it.index() as int),
    {
        v.push(c);
    }
    v
}

/// The order of labels: lexicographic by Unicode code point. (Rust orders
/// `str` by its UTF-8 bytes, which gives the same order.)
pub open spec fn lex_le(a: Seq<char>, b: Seq<char>) -> bool
    decreases a.len(),
{
    if a.len() == 0 {
        true
    } else if b.len() == 0 {
        false
    } else if a[0] != b[0] {
        (a[0] as u32) < (b[0] as u32)
    } else {
        lex_le(a.drop_first(), b.drop_first())
    }
}

/// The order of labels as a relation.
pub open spec fn label_order() -> spec_fn(Seq<char>, Seq<char>) -> bool {
    |a: Seq<char>, b: Seq<char>| lex_le(a, b)
}

/// The labels of a list, in increasing order.
pub open spec fn sorted_labels(s: Seq<Seq<char>>) -> Seq<Seq<char>> {
    s.sort_by(label_order())
}

/// What a list of strings holds.
pub open spec fn string_views(v: Seq<String>) -> Seq<Seq<char>> {
    v.map_values(|s: String| s@)
}

/// What a list of string slices holds.
pub open spec fn str_views(v: Seq<&str>) -> Seq<Seq<char>> {
    v.map_values(|s: &str| s@)
}

proof fn lemma_lex_reflexive(a: Seq<char>)
    ensures
        lex_le(a, a),
    decreases a.len(),
{
    if a.len() > 0 {
        lemma_lex_reflexive(a.drop_first());
    }
}

proof fn lemma_lex_antisymmetric(a: Seq<char>, b: Seq<char>)
    requires
        lex_le(a, b),
        lex_le(b, a),
    ensures
        a == b,
    decreases a.len(),
{
    if a.len() > 0 && b.len() > 0 {
        if a[0] == b[0] {
            lemma_lex_antisymmetric(a.drop_first(), b.drop_first());
            assert(a =~= seq![a[0]] + a.drop_first());
            assert(b =~= seq![b[0]] + b.drop_first());
        }
    } else {
        assert(a =~= b);
    }
}

proof fn lemma_lex_transitive(a: Seq<char>, b: Seq<char>, c: Seq<char>)
    requires
        lex_le(a, b),
        lex_le(b, c),
    ensures
        lex_le(a, c),
    decreases a.len(),
{
    if a.len() > 0 && b.len() > 0 && c.len() > 0 {
        if a[0] == b[0] && b[0] == c[0] {
            lemma_lex_transitive(a.drop_first(), b.drop_first(), c.drop_first());
        }
    }
}

proof fn lemma_lex_connected(a: Seq<char>, b: Seq<char>)
    ensures
        lex_le(a, b) || lex_le(b, a),
    decreases a.len(),
{
    if a.len() > 0 && b.len() > 0 {
        if a[0] == b[0] {
            lemma_lex_connected(a.drop_first(), b.drop_first());
        } else {
            vstd::utf8::char_u32_cast(a[0], a[0] as u32);
            vstd::utf8::char_u32_cast(b[0], b[0] as u32);
        }
    }
}

/// The order of labels is a total order.
pub proof fn lemma_label_order_total()
    ensures
        total_ordering(label_order()),
{
    assert forall|a: Seq<char>| #[trigger] label_order()(a, a) by {
        lemma_lex_reflexive(a);
    }
    assert forall|a: Seq<char>, b: Seq<char>|
        #[trigger] label_order()(a, b) && #[trigger] label_order()(b, a) implies a == b by {
        lemma_lex_antisymmetric(a, b);
    }
    assert forall|a: Seq<char>, b: Seq<char>, c: Seq<char>|
        #[trigger] label_order()(a, b) && #[trigger] label_order()(b, c) implies label_order()(
        a,
        c,
    ) by {
        lemma_lex_transitive(a, b, c);
    }
    assert forall|a: Seq<char>, b: Seq<char>|
        #[trigger] label_order()(a, b) || #[trigger] label_order()(b, a) by {
        lemma_lex_connected(a, b);
    }
}

/// Whether `a` comes no later than `b` in the order of labels.
pub fn lex_le_exec(a: &Vec<char>, b: &Vec<char>) -> (res: bool)
    ensures
        res == lex_le(a@, b@),
{
    let mut i: usize = 0;
    proof {
        assert(a@.skip(0) =~= a@);
        assert(b@.skip(0) =~= b@);
    }
    while i < a.len() && i < b.len() && a[i] == b[i]
        invariant
            i <= a.len(),
            i <= b.len(),
            lex_le(a@, b@) == lex_le(a@.skip(i as int), b@.skip(i as int)),
        decreases a.len() - i,
    {
        proof {
            assert(a@.skip(i as int).drop_first() =~= a@.skip(i + 1));
            assert(b@.skip(i as int).drop_first() =~= b@.skip(i + 1));
        }
        i = i + 1;
    }
    if i == a.len() {
        true
    } else if i == b.len() {
        false
    } else {
        (a[i] as u32) < (b[i] as u32)
    }
}

/// Whether label `a` comes no later than label `b`.
pub fn label_le(a: &str, b: &str) -> (res: bool)
    ensures
        res == lex_le(a@, b@),
{
    let ka = char_vec(a);
    let kb = char_vec(b);
    lex_le_exec(&ka, &kb)
}

/// Appending `x` to a sorted list whose last label comes no later than `x`
/// keeps it sorted.
proof fn lemma_push_sorted(s: Seq<Seq<char>>, x: Seq<char>)
    requires
        sorted_by(s, label_order()),
        s.len() > 0 ==> lex_le(s.last(), x),
    ensures
        sorted_by(s.push(x), label_order()),
{
    let t = s.push(x);
    assert forall|i: int, j: int| 0 <= i < j < t.len() implies #[trigger] label_order()(
        t[i],
        t[j],
    ) by {
        if j < s.len() {
            assert(label_order()(s[i], s[j]));
        } else if i < s.len() - 1 {
            assert(label_order()(s[i], s[s.len() - 1]));
            lemma_lex_transitive(s[i], s.last(), x);
        }
    }
}

/// The two sorted lists merged into one sorted list holding the labels of
/// both.
fn merge_labels(a: &Vec<String>, b: &Vec<String>) -> (res: Vec<String>)
    requires
        sorted_by(string_views(a@), label_order()),
        sorted_by(string_views(b@), label_order()),
    ensures
        sorted_by(string_views(res@), label_order()),
        string_views(res@).to_multiset() == string_views(a@).to_multiset().add(
            string_views(b@).to_multiset(),
        ),
{
    broadcast use vstd::multiset::group_multiset_axioms;

    let ghost va = string_views(a@);
    let ghost vb = string_views(b@);
    let mut res: Vec<String> = Vec::new();
    let mut i: usize = 0;
    let mut j: usize = 0;
    proof {
        let e = Seq::<Seq<char>>::empty();
        assert(string_views(res@) =~= e);
        assert(va.take(0) =~= e);
        assert(vb.take(0) =~= e);
        vstd::seq_lib::to_multiset_len(e);
        vstd::multiset::lemma_multiset_empty_len(e.to_multiset());
        assert(e.to_multiset().add(e.to_multiset()) =~= e.to_multiset());
    }
    while i < a.len() || j < b.len()
        invariant
            va == string_views(a@),
            vb == string_views(b@),
            sorted_by(va, label_order()),
            sorted_by(vb, label_order()),
            i <= a@.len(),
            j <= b@.len(),
            sorted_by(string_views(res@), label_order()),
            string_views(res@).to_multiset() == va.take(i as int).to_multiset().add(
                vb.take(j as int).to_multiset(),
            ),
            res@.len() > 0 && i < a@.len() ==> lex_le(string_views(res@).last(), va[i as int]),
            res@.len() > 0 && j < b@.len() ==> lex_le(string_views(res@).last(), vb[j as int]),
        decreases a@.len() + b@.len() - i - j,
    {
        let ghost prev = string_views(res@);
        let take_a = if i == a.len() {
            false
        } else if j == b.len() {
            true
        } else {
            label_le(a[i].as_str(), b[j].as_str())
        };
        let ghost x: Seq<char>;
        if take_a {
            proof {
                x = va[i as int];
                lemma_push_sorted(prev, x);
                assert(va.take(i + 1) =~= va.take(i as int).push(x));
                vstd::seq_lib::to_multiset_build(va.take(i as int), x);
                if j < b@.len() {
                    lemma_label_order_total();
                }
                if i + 1 < a@.len() {
                    assert(label_order()(va[i as int], va[i + 1]));
                }
            }
            res.push(a[i].clone());
            i = i + 1;
        } else {
            proof {
                x = vb[j as int];
                lemma_push_sorted(prev, x);
                assert(vb.take(j + 1) =~= vb.take(j as int).push(x));
                vstd::seq_lib::to_multiset_build(vb.take(j as int), x);
                if i < a@.len() {
                    lemma_lex_connected(va[i as int], vb[j as int]);
                }
                if j + 1 < b@.len() {
                    assert(label_order()(vb[j as int], vb[j + 1]));
                }
            }
            res.push(b[j].clone());
            j = j + 1;
        }
        proof {
            assert(string_views(res@) =~= prev.push(x));
            vstd::seq_lib::to_multiset_build(prev, x);
            assert(string_views(res@).to_multiset() =~= va.take(i as int).to_multiset().add(
                vb.take(j as int).to_multiset(),
            ));
        }
    }
    proof {
        assert(va.take(i as int) =~= va);
        assert(vb.take(j as int) =~= vb);
    }
    res
}

/// The labels `v[lo..hi]` in increasing order, by merge sort.
fn merge_sort_labels(v: &Vec<String>, lo: usize, hi: usize) -> (res: Vec<String>)
    requires
        lo <= hi <= v@.len(),
    ensures
        sorted_by(string_views(res@), label_order()),
        string_views(res@).to_multiset() == string_views(v@).subrange(
            lo as int,
            hi as int,
        ).to_multiset(),
    decreases hi - lo,
{
    let ghost vs = string_views(v@);
    if hi - lo <= 1 {
        let mut res: Vec<String> = Vec::new();
        if hi - lo == 1 {
            res.push(v[lo].clone());
        }
        proof {
            assert(string_views(res@) =~= vs.subrange(lo as int, hi as int));
        }
        res
    } else {
        let mid = lo + (hi - lo) / 2;
        let left = merge_sort_labels(v, lo, mid);
        let right = merge_sort_labels(v, mid, hi);
        proof {
            assert(vs.subrange(lo as int, hi as int) =~= vs.subrange(lo as int, mid as int)
                + vs.subrange(mid as int, hi as int));
            vstd::seq_lib::lemma_multiset_commutative(
                vs.subrange(lo as int, mid as int),
                vs.subrange(mid as int, hi as int),
            );
        }
        merge_labels(&left, &right)
    }
}

/// The labels in increasing order.
pub fn sort_labels(labels: &Vec<&str>) -> (sorted: Vec<String>)
    ensures
        string_views(sorted@) == sorted_labels(str_views(labels@)),
{
    let ghost input = str_views(labels@);
    let mut owned: Vec<String> = Vec::new();
    let mut i: usize = 0;
    while i < labels.len()
        invariant
            input == str_views(labels@),
            i <= labels@.len(),
            string_views(owned@) == input.take(i as int),
        decreases labels@.len() - i,
    {
        let ghost prev = owned@;
        owned.push(labels[i].to_owned());
        proof {
            assert(string_views(owned@) =~= string_views(prev).push(input[i as int]));
            assert(input.take(i + 1) =~= input.take(i as int).push(input[i as int]));
        }
        i = i + 1;
    }
    proof {
        assert(input.take(i as int) =~= input);
        assert(string_views(owned@).subrange(0, owned@.len() as int) =~= input);
    }
    let sorted = merge_sort_labels(&owned, 0, owned.len());
    proof {
        lemma_label_order_total();
        input.lemma_sort_by_ensures(label_order());
        vstd::seq_lib::lemma_sorted_unique(
            string_views(sorted@),
            input.sort_by(label_order()),
            label_order(),
        );
    }
    sorted
}

/// Number of bytes of the UTF-8 encoding of a label (what `str::len`
/// counts).
pub open spec fn byte_len(s: Seq<char>) -> nat {
    encode_utf8(s).len()
}

/// A label has at least as many bytes as characters.
pub proof fn lemma_byte_len_at_least_chars(s: Seq<char>)
    ensures
        byte_len(s) >= s.len(),
    decreases s.len(),
{
    if s.len() > 0 {
        lemma_byte_len_at_least_chars(s.drop_first());
        assert(encode_scalar(s[0] as u32).len() >= 1);
    }
}

/// A label made of ASCII characters has as many bytes as characters.
pub proof fn lemma_ascii_byte_len(s: Seq<char>)
    requires
        forall|i: int| 0 <= i < s.len() ==> (s[i] as u32) < 128,
    ensures
        byte_len(s) == s.len(),
    decreases s.len(),
{
    if s.len() > 0 {
        let t = s.drop_first();
        assert forall|i: int| 0 <= i < t.len() implies (t[i] as u32) < 128 by {
            assert(t[i] == s[i + 1]);
        }
        lemma_ascii_byte_len(t);
        assert((s[0] as u32) < 128);
        assert(encode_scalar(s[0] as u32).len() == 1);
    }
}

/// Two labels that agree on their first `k` characters and then differ (or
/// one of them ends) have a common prefix of length `k`.
pub proof fn lemma_common_prefix_is(a: Seq<char>, b: Seq<char>, k: nat)
    requires
        k <= a.len(),
        k <= b.len(),
        a.take(k as int) == b.take(k as int),
        k == a.len() || k == b.len() || a[k as int] != b[k as int],
    ensures
        common_prefix_len(a, b) == k,
    decreases k,
{
    if k > 0 {
        assert(a[0] == a.take(k as int)[0]);
        assert(b[0] == b.take(k as int)[0]);
        let a1 = a.drop_first();
        let b1 = b.drop_first();
        assert(a1.take(k - 1) =~= a.take(k as int).drop_first());
        assert(b1.take(k - 1) =~= b.take(k as int).drop_first());
        if k < a.len() && k < b.len() {
            assert(a1[k - 1] == a[k as int]);
            assert(b1[k - 1] == b[k as int]);
        }
        lemma_common_prefix_is(a1, b1, (k - 1) as nat);
    }
}

/// Number of bytes of a string.
pub fn byte_length(s: &str) -> (n: usize)
    ensures
        n == byte_len(s@),
{
    let b = s.as_bytes();
    b.len()
}

/// The smaller of two numbers.
pub open spec fn min_nat(x: nat, y: nat) -> nat {
    if x <= y {
        x
    } else {
        y
    }
}

/// Number of leading positions at which two labels agree.
pub open spec fn common_prefix_len(a: Seq<char>, b: Seq<char>) -> nat
    decreases a.len(),
{
    if a.len() == 0 || b.len() == 0 || a[0] != b[0] {
        0
    } else {
        1 + common_prefix_len(a.drop_first(), b.drop_first())
    }
}

/// Number of positions among the first `k` at which two labels hold the
/// same character.
pub open spec fn matches_upto(a: Seq<char>, b: Seq<char>, k: nat) -> nat
    decreases k,
{
    if k == 0 {
        0
    } else {
        matches_upto(a, b, (k - 1) as nat) + if a[k - 1] == b[k - 1] {
            1nat
        } else {
            0nat
        }
    }
}

/// Number of positions, over the length of the shorter label, at which two
/// labels hold the same character.
pub open spec fn match_count(a: Seq<char>, b: Seq<char>) -> nat {
    matches_upto(a, b, min_nat(a.len(), b.len()))
}

/// Distance between two labels: the difference of their lengths in
/// characters plus the number of character pairs, over the shorter label,
/// that differ.
pub open spec fn label_distance(a: Seq<char>, b: Seq<char>) -> nat {
    let diff: nat = if a.len() >= b.len() {
        (a.len() - b.len()) as nat
    } else {
        (b.len() - a.len()) as nat
    };
    diff + (min_nat(a.len(), b.len()) - match_count(a, b)) as nat
}

/// Matches never outnumber the positions examined.
pub proof fn lemma_matches_bound(a: Seq<char>, b: Seq<char>, k: nat)
    ensures
        matches_upto(a, b, k) <= k,
    decreases k,
{
    if k > 0 {
        lemma_matches_bound(a, b, (k - 1) as nat);
    }
}

/// A label matches itself at every position.
pub proof fn lemma_matches_self(a: Seq<char>, k: nat)
    ensures
        matches_upto(a, a, k) == k,
    decreases k,
{
    if k > 0 {
        lemma_matches_self(a, (k - 1) as nat);
    }
}

/// Matching positions do not depend on the order of the two labels.
pub proof fn lemma_matches_symmetric(a: Seq<char>, b: Seq<char>, k: nat)
    ensures
        matches_upto(a, b, k) == matches_upto(b, a, k),
    decreases k,
{
    if k > 0 {
        lemma_matches_symmetric(a, b, (k - 1) as nat);
    }
}

/// Number of leading positions at which two labels agree.
pub fn common_prefix_length(a: &Vec<char>, b: &Vec<char>) -> (n: usize)
    ensures
        n == common_prefix_len(a@, b@),
        n <= a@.len(),
        n <= b@.len(),
{
    let mut i: usize = 0;
    proof {
        assert(a@.skip(0) =~= a@);
        assert(b@.skip(0) =~= b@);
    }
    while i < a.len() && i < b.len() && a[i] == b[i]
        invariant
            i <= a.len(),
            i <= b.len(),
            common_prefix_len(a@, b@) == i + common_prefix_len(a@.skip(i as int), b@.skip(i as int)),
        decreases a.len() - i,
    {
        proof {
            assert(a@.skip(i as int).drop_first() =~= a@.skip(i + 1));
            assert(b@.skip(i as int).drop_first() =~= b@.skip(i + 1));
        }
        i = i + 1;
    }
    i
}

/// Number of positions, over the shorter label, where both labels hold the
/// same character.
pub fn match_count_exec(a: &Vec<char>, b: &Vec<char>) -> (n: usize)
    ensures
        n == match_count(a@, b@),
        n <= min_nat(a@.len(), b@.len()),
{
    let m = if a.len() <= b.len() {
        a.len()
    } else {
        b.len()
    };
    let mut n: usize = 0;
    let mut i: usize = 0;
    while i < m
        invariant
            m == min_nat(a@.len(), b@.len()),
            i <= m,
            n == matches_upto(a@, b@, i as nat),
            n <= i,
        decreases m - i,
    {
        if a[i] == b[i] {
            n = n + 1;
        }
        i = i + 1;
    }
    n
}

/// Simple string distance: the difference of the lengths in characters plus
/// the number of differing character pairs.
pub fn string_distance(a: &str, b: &str) -> (d: usize)
    ensures
        d == label_distance(a@, b@),
{
    let ca = char_vec(a);
    let cb = char_vec(b);
    let matches = match_count_exec(&ca, &cb);
    let (m, diff) = if ca.len() <= cb.len() {
        (ca.len(), cb.len() - ca.len())
    } else {
        (cb.len(), ca.len() - cb.len())
    };
    diff + (m - matches)
}

/// Sorting keeps the number of labels and brings in no new label.
pub proof fn lemma_sorted_labels_from(s: Seq<Seq<char>>)
    ensures
        sorted_labels(s).len() == s.len(),
        forall|k: int| 0 <= k < s.len() ==> s.contains(#[trigger] sorted_labels(s)[k]),
{
    lemma_label_order_total();
    s.lemma_sort_by_ensures(label_order());
    broadcast use vstd::seq_lib::group_to_multiset_ensures;

    assert(s.to_multiset().len() == sorted_labels(s).to_multiset().len());
    assert forall|k: int| 0 <= k < s.len() implies s.contains(#[trigger] sorted_labels(s)[k]) by {
        assert(sorted_labels(s).contains(sorted_labels(s)[k]));
    }
}

/// The distance between two labels is at most the length of the longer.
pub proof fn lemma_distance_bound(a: Seq<char>, b: Seq<char>)
    ensures
        label_distance(a, b) <= if a.len() >= b.len() {
            a.len()
        } else {
            b.len()
        },
{
    lemma_matches_bound(a, b, min_nat(a.len(), b.len()));
}

/// Two labels agree at all of the first `k` positions exactly when all of
/// those positions match.
pub proof fn lemma_matches_all(a: Seq<char>, b: Seq<char>, k: nat)
    requires
        k <= a.len(),
        k <= b.len(),
    ensures
        matches_upto(a, b, k) == k <==> forall|i: int| 0 <= i < k ==> a[i] == b[i],
    decreases k,
{
    if k > 0 {
        lemma_matches_all(a, b, (k - 1) as nat);
        lemma_matches_bound(a, b, (k - 1) as nat);
    }
}


/// String distance does not depend on the order of its arguments, and two
/// labels are at distance zero exactly when they are the same.
pub proof fn law_distance_symmetric(a: Seq<char>, b: Seq<char>)
    ensures
        label_distance(a, b) == label_distance(b, a),
        label_distance(a, b) == 0 <==> a == b,
{
    lemma_matches_symmetric(a, b, min_nat(a.len(), b.len()));
    lemma_matches_self(a, a.len());
    lemma_matches_bound(a, b, min_nat(a.len(), b.len()));
    if label_distance(a, b) == 0 {
        lemma_matches_all(a, b, a.len());
        assert(a =~= b);
    }
}

/// Labels come out of sorting in order: each is no later than the next.
pub proof fn law_sorted_in_order(s: Seq<Seq<char>>)
    ensures
        forall|i: int, j: int|
            0 <= i < j < s.len() ==> lex_le(
                #[trigger] sorted_labels(s)[i],
                #[trigger] sorted_labels(s)[j],
            ),
        sorted_labels(s).to_multiset() == s.to_multiset(),
{
    lemma_label_order_total();
    s.lemma_sort_by_ensures(label_order());
    lemma_sorted_labels_from(s);
    assert forall|i: int, j: int| 0 <= i < j < s.len() implies lex_le(
        #[trigger] sorted_labels(s)[i],
        #[trigger] sorted_labels(s)[j],
    ) by {
        assert(label_order()(sorted_labels(s)[i], sorted_labels(s)[j]));
    }
}


/// The matches counted among the first `k` positions are exactly the
/// positions below `k` where the two labels hold the same character.
pub proof fn lemma_matches_are_positions(a: Seq<char>, b: Seq<char>, k: nat)
    requires
        k <= a.len(),
        k <= b.len(),
    ensures
        Set::new(|i: int| 0 <= i < k && a[i] == b[i]).finite(),
        Set::new(|i: int| 0 <= i < k && a[i] == b[i]).len() == matches_upto(a, b, k),
    decreases k,
{
    broadcast use vstd::set::group_set_axioms;

    let s = Set::new(|i: int| 0 <= i < k && a[i] == b[i]);
    if k == 0 {
        assert(s =~= Set::<int>::empty());
    } else {
        let t = Set::new(|i: int| 0 <= i < k - 1 && a[i] == b[i]);
        lemma_matches_are_positions(a, b, (k - 1) as nat);
        if a[k - 1] == b[k - 1] {
            assert(s =~= t.insert(k - 1));
            assert(!t.contains(k - 1));
        } else {
            assert(s =~= t);
        }
    }
}

} // verus!
