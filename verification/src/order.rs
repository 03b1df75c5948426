//! The order of paths and names: texts are compared character by
//! character, by code point, and a text comes before each of its longer
//! continuations. This is the order in which file lists are written.

use vstd::prelude::*;
use crate::text::{char_views, chars_of, same_chars, strings_of, views};

verus! {

/// `a` comes before `b` or is `b`.
pub open spec fn lex_le(a: Seq<char>, b: Seq<char>) -> bool
    decreases a.len(),
{
    if a.len() == 0 {
        true
    } else if b.len() == 0 {
        false
    } else if a[0] != b[0] {
        (a[0] as u32) < (b[0] as u32)
    } else {
        lex_le(a.drop_first(), b.drop_first())
    }
}

/// Each text of `s` comes before those that follow it, or equals them.
pub open spec fn sorted(s: Seq<Seq<char>>) -> bool {
    forall|i: int, j: int| 0 <= i <= j < s.len() ==> lex_le(s[i], s[j])
}

/// Each text of `s` comes before those that follow it and equals none.
pub open spec fn strictly_sorted(s: Seq<Seq<char>>) -> bool {
    forall|i: int, j: int| 0 <= i < j < s.len() ==> lex_le(s[i], s[j]) && s[i] != s[j]
}

/// Of two texts one comes before the other, or they are the same.
pub proof fn lemma_le_total(a: Seq<char>, b: Seq<char>)
    ensures
        lex_le(a, b) || lex_le(b, a),
    decreases a.len(),
{
    if a.len() > 0 && b.len() > 0 {
        if a[0] == b[0] {
            lemma_le_total(a.drop_first(), b.drop_first());
        } else {
            lemma_code_points_differ(a[0], b[0]);
        }
    }
}

/// Characters that differ have code points that differ.
proof fn lemma_code_points_differ(a: char, b: char)
    requires
        a != b,
    ensures
        (a as u32) != (b as u32),
{
    vstd::utf8::char_u32_cast(a, a as u32);
    vstd::utf8::char_u32_cast(b, b as u32);
}

/// Two texts that come before each other are the same.
pub proof fn lemma_le_antisymmetric(a: Seq<char>, b: Seq<char>)
    requires
        lex_le(a, b),
        lex_le(b, a),
    ensures
        a == b,
    decreases a.len(),
{
    if a.len() == 0 || b.len() == 0 {
        assert(a =~= b);
    } else {
        if a[0] != b[0] {
            lemma_code_points_differ(a[0], b[0]);
        }
        lemma_le_antisymmetric(a.drop_first(), b.drop_first());
        assert(a =~= seq![a[0]] + a.drop_first());
        assert(b =~= seq![b[0]] + b.drop_first());
    }
}

/// What comes before a text comes before all that the text comes before.
pub proof fn lemma_le_transitive(a: Seq<char>, b: Seq<char>, c: Seq<char>)
    requires
        lex_le(a, b),
        lex_le(b, c),
    ensures
        lex_le(a, c),
    decreases a.len(),
{
    if a.len() > 0 && b.len() > 0 && c.len() > 0 && a[0] == b[0] && b[0] == c[0] {
        lemma_le_transitive(a.drop_first(), b.drop_first(), c.drop_first());
    }
}

/// Every text comes before itself.
pub proof fn lemma_le_reflexive(a: Seq<char>)
    ensures
        lex_le(a, a),
    decreases a.len(),
{
    if a.len() > 0 {
        lemma_le_reflexive(a.drop_first());
    }
}

/// Whether `a` comes before `b` or is `b`.
pub fn le_chars(a: &[char], b: &[char]) -> (r: bool)
    ensures
        r == lex_le(a@, b@),
{
    let mut i: usize = 0;
    assert(a@.skip(0) =~= a@);
    assert(b@.skip(0) =~= b@);
    while i < a.len() && i < b.len()
        invariant
            i <= a.len(),
            i <= b.len(),
            lex_le(a@, b@) == lex_le(a@.skip(i as int), b@.skip(i as int)),
        decreases a.len() - i,
    {
        assert(a@.skip(i as int)[0] == a@[i as int]);
        assert(b@.skip(i as int)[0] == b@[i as int]);
        assert(a@.skip(i as int).drop_first() =~= a@.skip(i + 1));
        assert(b@.skip(i as int).drop_first() =~= b@.skip(i + 1));
        if a[i] != b[i] {
            return (a[i] as u32) < (b[i] as u32);
        }
        i += 1;
    }
    assert(a@.skip(i as int).len() == a.len() - i);
    assert(b@.skip(i as int).len() == b.len() - i);
    i == a.len()
}

/// The place of `item` in the sorted `list`: before everything that comes
/// after it.
fn place_of(list: &Vec<Vec<char>>, item: &[char]) -> (p: usize)
    requires
        sorted(char_views(list@)),
    ensures
        p <= list.len(),
        forall|k: int| 0 <= k < p ==> lex_le(#[trigger] char_views(list@)[k], item@),
        forall|k: int|
            p <= k < list.len() ==> lex_le(item@, #[trigger] char_views(list@)[k]) && char_views(
                list@,
            )[k] != item@,
{
    let mut p: usize = 0;
    while p < list.len() && le_chars(list[p].as_slice(), item)
        invariant
            p <= list.len(),
            forall|k: int| 0 <= k < p ==> lex_le(#[trigger] char_views(list@)[k], item@),
        decreases list.len() - p,
    {
        p += 1;
    }
    proof {
        if p < list.len() {
            let at = char_views(list@)[p as int];
            assert(at == list[p as int]@);
            lemma_le_total(at, item@);
            assert forall|k: int| p <= k < list.len() implies lex_le(
                item@,
                #[trigger] char_views(list@)[k],
            ) && char_views(list@)[k] != item@ by {
                lemma_le_transitive(item@, at, char_views(list@)[k]);
                if char_views(list@)[k] == item@ {
                    lemma_le_transitive(at, char_views(list@)[k], item@);
                }
            }
        }
    }
    p
}

/// A sequence with one more element somewhere holds what it held and the
/// element.
pub proof fn lemma_insert_holds<A>(s: Seq<A>, p: int, x: A)
    requires
        0 <= p <= s.len(),
    ensures
        s.insert(p, x).to_multiset() == s.to_multiset().insert(x),
{
    let t = s.insert(p, x);
    assert(t.remove(p) =~= s);
    vstd::seq_lib::to_multiset_remove(t, p);
    assert(t[p] == x);
    t.to_multiset_ensures();
    assert(t.contains(x));
    assert(t.to_multiset() =~= s.to_multiset().insert(x));
}

/// A sorted sequence with one more text at its place is sorted and holds
/// what it held and the text.
proof fn lemma_insert_sorted(s: Seq<Seq<char>>, p: int, x: Seq<char>)
    requires
        sorted(s),
        0 <= p <= s.len(),
        forall|k: int| 0 <= k < p ==> lex_le(#[trigger] s[k], x),
        forall|k: int| p <= k < s.len() ==> lex_le(x, #[trigger] s[k]),
    ensures
        sorted(s.insert(p, x)),
        s.insert(p, x).to_multiset() == s.to_multiset().insert(x),
{
    let t = s.insert(p, x);
    lemma_le_reflexive(x);
    assert forall|i: int, j: int| 0 <= i <= j < t.len() implies lex_le(t[i], t[j]) by {
        let a = if i < p {
            s[i]
        } else if i == p {
            x
        } else {
            s[i - 1]
        };
        assert(t[i] == a);
        if j < p {
            assert(t[j] == s[j]);
        } else if j == p {
            assert(t[j] == x);
        } else {
            assert(t[j] == s[j - 1]);
        }
    }
    lemma_insert_holds(s, p, x);
}

/// The texts in order, each as often as it was given.
pub fn sort_strings(items: &Vec<String>) -> (out: Vec<String>)
    ensures
        sorted(views(out@)),
        views(out@).to_multiset() == views(items@).to_multiset(),
{
    let mut list: Vec<Vec<char>> = Vec::new();
    let mut i: usize = 0;
    assert(views(items@).take(0) =~= Seq::<Seq<char>>::empty());
    assert(char_views(list@) =~= Seq::<Seq<char>>::empty());
    while i < items.len()
        invariant
            i <= items.len(),
            sorted(char_views(list@)),
            char_views(list@).to_multiset() == views(items@).take(i as int).to_multiset(),
        decreases items.len() - i,
    {
        let item = chars_of(items[i].as_str());
        let p = place_of(&list, item.as_slice());
        let ghost before = char_views(list@);
        proof {
            lemma_insert_sorted(before, p as int, item@);
            vstd::seq_lib::to_multiset_build(views(items@).take(i as int), item@);
            assert(views(items@).take(i + 1) =~= views(items@).take(i as int).push(item@));
        }
        list.insert(p, item);
        assert(char_views(list@) =~= before.insert(p as int, item@));
        i += 1;
    }
    assert(views(items@).take(items.len() as int) =~= views(items@));
    strings_of(&list)
}

/// A strictly sorted sequence with one more text at its place, where it
/// does not hold the text, is strictly sorted and holds what it held and
/// the text.
proof fn lemma_insert_strict(s: Seq<Seq<char>>, p: int, x: Seq<char>)
    requires
        strictly_sorted(s),
        0 <= p <= s.len(),
        forall|k: int| 0 <= k < p ==> lex_le(#[trigger] s[k], x) && s[k] != x,
        forall|k: int| p <= k < s.len() ==> lex_le(x, #[trigger] s[k]) && s[k] != x,
    ensures
        strictly_sorted(s.insert(p, x)),
        s.insert(p, x).to_set() == s.to_set().insert(x),
{
    let t = s.insert(p, x);
    assert forall|i: int, j: int| 0 <= i < j < t.len() implies lex_le(t[i], t[j]) && t[i]
        != t[j] by {
        if i < p {
            assert(t[i] == s[i]);
        } else if i == p {
            assert(t[i] == x);
        } else {
            assert(t[i] == s[i - 1]);
        }
        if j < p {
            assert(t[j] == s[j]);
        } else if j == p {
            assert(t[j] == x);
        } else {
            assert(t[j] == s[j - 1]);
        }
    }
    assert forall|e: Seq<char>| t.to_set().contains(e) <==> s.to_set().insert(x).contains(
        e,
    ) by {
        if t.contains(e) {
            let k = choose|k: int| 0 <= k < t.len() && t[k] == e;
            if k < p {
                assert(s[k] == e);
            } else if k > p {
                assert(s[k - 1] == e);
            }
        }
        if s.contains(e) {
            let k = choose|k: int| 0 <= k < s.len() && s[k] == e;
            if k < p {
                assert(t[k] == e);
            } else {
                assert(t[k + 1] == e);
            }
        }
        if e == x {
            assert(t[p] == x);
        }
    }
    assert(t.to_set() =~= s.to_set().insert(x));
}

/// The texts in order, each once.
pub fn sort_unique(items: &Vec<String>) -> (out: Vec<String>)
    ensures
        strictly_sorted(views(out@)),
        views(out@).to_set() == views(items@).to_set(),
{
    let mut list: Vec<Vec<char>> = Vec::new();
    let mut i: usize = 0;
    assert(views(items@).take(0) =~= Seq::<Seq<char>>::empty());
    assert(char_views(list@) =~= Seq::<Seq<char>>::empty());
    assert(char_views(list@).to_set() =~= views(items@).take(0).to_set());
    while i < items.len()
        invariant
            i <= items.len(),
            strictly_sorted(char_views(list@)),
            char_views(list@).to_set() == views(items@).take(i as int).to_set(),
        decreases items.len() - i,
    {
        let item = chars_of(items[i].as_str());
        let ghost before = char_views(list@);
        let ghost seen = views(items@).take(i as int);
        proof {
            assert forall|a: int, b: int| 0 <= a <= b < before.len() implies lex_le(
                before[a],
                before[b],
            ) by {
                lemma_le_reflexive(before[a]);
            }
            assert(views(items@).take(i + 1) =~= seen.push(item@));
            assert(seen.push(item@).to_set() =~= seen.to_set().insert(item@)) by {
                assert forall|e: Seq<char>| seen.push(item@).to_set().contains(e)
                    <==> seen.to_set().insert(item@).contains(e) by {
                    if seen.push(item@).contains(e) {
                        let k = choose|k: int| 0 <= k < seen.len() + 1 && seen.push(item@)[k] == e;
                        if k < seen.len() {
                            assert(seen[k] == e);
                        }
                    }
                    if seen.contains(e) {
                        let k = choose|k: int| 0 <= k < seen.len() && seen[k] == e;
                        assert(seen.push(item@)[k] == e);
                    }
                    if e == item@ {
                        assert(seen.push(item@)[seen.len() as int] == e);
                    }
                }
            }
        }
        let p = place_of(&list, item.as_slice());
        let held = p > 0 && same_chars(list[p - 1].as_slice(), item.as_slice());
        if held {
            proof {
                assert(before[p - 1] == item@);
                assert(before.contains(item@));
                assert(before.to_set().insert(item@) =~= before.to_set());
            }
        } else {
            proof {
                assert forall|k: int| 0 <= k < p implies lex_le(#[trigger] before[k], item@)
                    && before[k] != item@ by {
                    if before[k] == item@ && k < p - 1 {
                        lemma_le_antisymmetric(before[k], before[p - 1]);
                    }
                }
                lemma_insert_strict(before, p as int, item@);
            }
            list.insert(p, item);
            assert(char_views(list@) =~= before.insert(p as int, item@));
        }
        i += 1;
    }
    assert(views(items@).take(items.len() as int) =~= views(items@));
    strings_of(&list)
}

/// The order of texts as a relation.
pub open spec fn before_or_same() -> spec_fn(Seq<char>, Seq<char>) -> bool {
    |a: Seq<char>, b: Seq<char>| lex_le(a, b)
}

/// A sorted list does not depend on the order in which its texts were
/// found: two sorted lists that hold the same texts, each as often, are
/// the same list.
pub proof fn law_sorted_is_unique(a: Seq<Seq<char>>, b: Seq<Seq<char>>)
    requires
        sorted(a),
        sorted(b),
        a.to_multiset() == b.to_multiset(),
    ensures
        a == b,
{
    let leq = before_or_same();
    assert(vstd::relations::reflexive(leq)) by {
        assert forall|x: Seq<char>| #[trigger] leq(x, x) by {
            lemma_le_reflexive(x);
        }
    }
    assert(vstd::relations::antisymmetric(leq)) by {
        assert forall|x: Seq<char>, y: Seq<char>| #[trigger]
            leq(x, y) && #[trigger] leq(y, x) implies x == y by {
            lemma_le_antisymmetric(x, y);
        }
    }
    assert(vstd::relations::transitive(leq)) by {
        assert forall|x: Seq<char>, y: Seq<char>, z: Seq<char>| #[trigger]
            leq(x, y) && #[trigger] leq(y, z) implies leq(x, z) by {
            lemma_le_transitive(x, y, z);
        }
    }
    assert(vstd::relations::strongly_connected(leq)) by {
        assert forall|x: Seq<char>, y: Seq<char>| #[trigger] leq(x, y) || #[trigger] leq(y, x) by {
            lemma_le_total(x, y);
        }
    }
    assert(vstd::relations::sorted_by(a, leq));
    assert(vstd::relations::sorted_by(b, leq));
    vstd::seq_lib::lemma_sorted_unique(a, b, leq);
}

} // verus!
