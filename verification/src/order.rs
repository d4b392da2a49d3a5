//! The lexicographic order of texts by code point (the order of `String`),
//! and sorting by it.
use vstd::prelude::*;

use crate::text::chars_of;

verus! {

broadcast use vstd::seq_lib::group_to_multiset_ensures;

/// `a` comes strictly before `b`: at the first position where they differ
/// `a` has the smaller code point, or `a` is a proper prefix of `b`.
pub open spec fn text_lt(a: Seq<char>, b: Seq<char>) -> bool
    decreases a.len(),
{
    if a.len() == 0 {
        b.len() > 0
    } else if b.len() == 0 {
        false
    } else if a[0] != b[0] {
        (a[0] as u32) < (b[0] as u32)
    } else {
        text_lt(a.drop_first(), b.drop_first())
    }
}

/// `a` comes before `b` or equals it.
pub open spec fn text_le(a: Seq<char>, b: Seq<char>) -> bool {
    a == b || text_lt(a, b)
}

/// The texts held by a sequence of strings.
pub open spec fn strings_view(v: Seq<String>) -> Seq<Seq<char>> {
    v.map_values(|s: String| s@)
}

/// Texts in ascending order.
pub open spec fn ascending(s: Seq<Seq<char>>) -> bool {
    forall|i: int, j: int| 0 <= i < j < s.len() ==> text_le(#[trigger] s[i], #[trigger] s[j])
}

proof fn lemma_first_rest(a: Seq<char>, b: Seq<char>)
    requires
        a.len() > 0,
        b.len() > 0,
        a[0] == b[0],
        a.drop_first() == b.drop_first(),
    ensures
        a == b,
{
    assert(a.len() == a.drop_first().len() + 1);
    assert(b.len() == b.drop_first().len() + 1);
    assert(a =~= b) by {
        assert forall|i: int| 0 <= i < a.len() implies a[i] == b[i] by {
            if i > 0 {
                assert(a[i] == a.drop_first()[i - 1]);
                assert(b[i] == b.drop_first()[i - 1]);
            }
        }
    }
}

/// No text comes strictly before itself.
pub proof fn lemma_text_lt_irreflexive(a: Seq<char>)
    ensures
        !text_lt(a, a),
    decreases a.len(),
{
    if a.len() > 0 {
        lemma_text_lt_irreflexive(a.drop_first());
    }
}

/// Of two different texts, one comes strictly before the other, and not both ways.
pub proof fn lemma_text_lt_total(a: Seq<char>, b: Seq<char>)
    ensures
        a != b ==> (text_lt(a, b) || text_lt(b, a)),
        !(text_lt(a, b) && text_lt(b, a)),
    decreases a.len(),
{
    if a.len() == 0 {
        if b.len() == 0 {
            assert(a =~= b);
        }
    } else if b.len() == 0 {
    } else if a[0] != b[0] {
        vstd::utf8::char_u32_cast(a[0], a[0] as u32);
        vstd::utf8::char_u32_cast(b[0], b[0] as u32);
    } else {
        lemma_text_lt_total(a.drop_first(), b.drop_first());
        if a.drop_first() == b.drop_first() {
            lemma_first_rest(a, b);
        }
    }
}

/// The strict order is transitive.
pub proof fn lemma_text_lt_transitive(a: Seq<char>, b: Seq<char>, c: Seq<char>)
    requires
        text_lt(a, b),
        text_lt(b, c),
    ensures
        text_lt(a, c),
    decreases a.len(),
{
    if a.len() > 0 && b.len() > 0 && c.len() > 0 && a[0] == b[0] && b[0] == c[0] {
        lemma_text_lt_transitive(a.drop_first(), b.drop_first(), c.drop_first());
    }
}

proof fn lemma_text_lt_common_prefix(a: Seq<char>, b: Seq<char>, i: int)
    requires
        0 <= i <= a.len(),
        i <= b.len(),
        forall|t: int| 0 <= t < i ==> a[t] == b[t],
    ensures
        text_lt(a, b) == text_lt(a.skip(i), b.skip(i)),
    decreases i,
{
    if i > 0 {
        assert forall|t: int| 0 <= t < i - 1 implies a.drop_first()[t] == b.drop_first()[t] by {
            assert(a.drop_first()[t] == a[t + 1]);
            assert(b.drop_first()[t] == b[t + 1]);
        }
        lemma_text_lt_common_prefix(a.drop_first(), b.drop_first(), i - 1);
        assert(a.drop_first().skip(i - 1) == a.skip(i));
        assert(b.drop_first().skip(i - 1) == b.skip(i));
    } else {
        assert(a.skip(0) == a);
        assert(b.skip(0) == b);
    }
}

/// Two sequences with the same elements, counted with repeats: if one has
/// no repeats, neither has the other.
pub proof fn lemma_same_multiset_no_duplicates(s: Seq<Seq<char>>, t: Seq<Seq<char>>)
    requires
        s.to_multiset() == t.to_multiset(),
        t.no_duplicates(),
    ensures
        s.no_duplicates(),
{
    t.lemma_multiset_has_no_duplicates();
    s.lemma_multiset_has_no_duplicates_conv();
}

/// Keeping some elements of a sequence without repeats gives one without repeats.
pub proof fn lemma_filter_no_duplicates(s: Seq<Seq<char>>, p: spec_fn(Seq<char>) -> bool)
    requires
        s.no_duplicates(),
    ensures
        s.filter(p).no_duplicates(),
    decreases s.len(),
{
    reveal_with_fuel(Seq::<_>::filter, 1);
    if s.len() > 0 {
        let init = s.drop_last();
        assert(init.no_duplicates());
        lemma_filter_no_duplicates(init, p);
        if p(s.last()) {
            if init.filter(p).contains(s.last()) {
                init.lemma_filter_contains_rev(p, s.last());
                let k = choose|k: int| 0 <= k < init.len() && init[k] == s.last();
                assert(s[k] == s[s.len() - 1]);
            }
        }
    }
}

/// Whether `a` comes strictly before `b`.
pub fn text_less(a: &String, b: &String) -> (r: bool)
    ensures
        r == text_lt(a@, b@),
{
    let x = chars_of(a.as_str());
    let y = chars_of(b.as_str());
    let mut i: usize = 0;
    while i < x.len() && i < y.len() && x[i] == y[i]
        invariant
            i <= x.len(),
            i <= y.len(),
            forall|t: int| 0 <= t < i ==> x@[t] == y@[t],
        decreases x.len() - i,
    {
        i = i + 1;
    }
    proof {
        lemma_text_lt_common_prefix(x@, y@, i as int);
        if i < x.len() {
            assert(x@.skip(i as int)[0] == x@[i as int]);
        }
        if i < y.len() {
            assert(y@.skip(i as int)[0] == y@[i as int]);
        }
    }
    if i == x.len() {
        i < y.len()
    } else if i == y.len() {
        false
    } else {
        (x[i] as u32) < (y[i] as u32)
    }
}

/// The strings of `v` in ascending order of their texts.
pub fn sort_strings(v: &Vec<String>) -> (r: Vec<String>)
    ensures
        ascending(strings_view(r@)),
        strings_view(r@).to_multiset() == strings_view(v@).to_multiset(),
{
    let ghost all = strings_view(v@);
    let mut r: Vec<String> = Vec::new();
    let mut i: usize = 0;
    proof {
        assert(all.take(0) =~= Seq::<Seq<char>>::empty());
        assert(strings_view(r@) =~= Seq::<Seq<char>>::empty());
    }
    while i < v.len()
        invariant
            i <= v.len(),
            all == strings_view(v@),
            ascending(strings_view(r@)),
            strings_view(r@).to_multiset() == all.take(i as int).to_multiset(),
        decreases v.len() - i,
    {
        let x = v[i].clone();
        let ghost rs = strings_view(r@);
        let mut j: usize = 0;
        while j < r.len() && !text_less(&x, &r[j])
            invariant
                j <= r.len(),
                rs == strings_view(r@),
                forall|k: int| 0 <= k < j ==> !text_lt(x@, #[trigger] rs[k]),
            decreases r.len() - j,
        {
            j = j + 1;
        }
        r.insert(j, x);
        proof {
            let ns = strings_view(r@);
            assert(ns =~= rs.insert(j as int, x@));
            vstd::seq_lib::to_multiset_insert(rs, j as int, x@);
            assert(all.take(i + 1) =~= all.take(i as int).push(x@));
            assert forall|a: int, b: int| 0 <= a < b < ns.len() implies text_le(
                #[trigger] ns[a],
                #[trigger] ns[b],
            ) by {
                if a < j && b < j {
                    assert(ns[a] == rs[a] && ns[b] == rs[b]);
                    assert(text_le(rs[a], rs[b]));
                } else if a < j && b == j {
                    lemma_text_lt_total(x@, rs[a]);
                } else if a < j {
                    assert(ns[a] == rs[a] && ns[b] == rs[b - 1]);
                    assert(text_le(rs[a], rs[b - 1]));
                } else if a == j {
                    assert(ns[b] == rs[b - 1]);
                    assert(text_lt(x@, rs[j as int]));
                    if b - 1 > j {
                        assert(text_le(rs[j as int], rs[b - 1]));
                        if rs[j as int] != rs[b - 1] {
                            lemma_text_lt_transitive(x@, rs[j as int], rs[b - 1]);
                        }
                    }
                } else {
                    assert(ns[a] == rs[a - 1] && ns[b] == rs[b - 1]);
                    assert(text_le(rs[a - 1], rs[b - 1]));
                }
            }
        }
        i = i + 1;
    }
    proof {
        assert(all.take(v.len() as int) =~= all);
    }
    r
}

} // verus!
