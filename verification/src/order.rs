//! The lexicographic order of texts by code point, and sorted lists of strings.

use vstd::prelude::*;

use crate::text;

verus! {

/// Whether `a` comes strictly before `b`, character by character, by code point.
pub open spec fn before(a: Seq<char>, b: Seq<char>) -> bool
    decreases a.len(),
{
    if b.len() == 0 {
        false
    } else if a.len() == 0 {
        true
    } else if a[0] == b[0] {
        before(a.drop_first(), b.drop_first())
    } else {
        (a[0] as u32) < (b[0] as u32)
    }
}

/// Of two texts exactly one comes first, unless they are equal.
pub proof fn lemma_before_total(a: Seq<char>, b: Seq<char>)
    ensures
        before(a, b) ==> !before(b, a) && a != b,
        !before(a, b) && !before(b, a) ==> a == b,
    decreases a.len(),
{
    if a.len() > 0 && b.len() > 0 {
        vstd::utf8::char_u32_cast(a[0], a[0] as u32);
        vstd::utf8::char_u32_cast(b[0], b[0] as u32);
        if a[0] == b[0] {
            lemma_before_total(a.drop_first(), b.drop_first());
            assert(a =~= seq![a[0]] + a.drop_first());
            assert(b =~= seq![b[0]] + b.drop_first());
        }
    } else if a.len() == 0 && b.len() == 0 {
        assert(a =~= b);
    }
}

/// The order is transitive.
pub proof fn lemma_before_transitive(a: Seq<char>, b: Seq<char>, c: Seq<char>)
    requires
        before(a, b),
        before(b, c),
    ensures
        before(a, c),
    decreases a.len(),
{
    if a.len() > 0 && b.len() > 0 && c.len() > 0 {
        if a[0] == b[0] && b[0] == c[0] {
            lemma_before_transitive(a.drop_first(), b.drop_first(), c.drop_first());
        }
    }
}

/// Whether `a` comes strictly before `b`.
pub fn is_before(a: &str, b: &str) -> (r: bool)
    ensures
        r == before(a@, b@),
{
    let x = text::chars_of(a);
    let y = text::chars_of(b);
    let mut i: usize = 0;
    assert(a@.skip(0) =~= a@);
    assert(b@.skip(0) =~= b@);
    while i < x.len() && i < y.len() && x[i] == y[i]
        invariant
            x@ == a@,
            y@ == b@,
            i <= x.len(),
            i <= y.len(),
            before(a@, b@) == before(a@.skip(i as int), b@.skip(i as int)),
        decreases x.len() - i,
    {
        assert(a@.skip(i as int).drop_first() =~= a@.skip(i + 1));
        assert(b@.skip(i as int).drop_first() =~= b@.skip(i + 1));
        i += 1;
    }
    if i >= y.len() {
        false
    } else if i >= x.len() {
        true
    } else {
        (x[i] as u32) < (y[i] as u32)
    }
}

/// Every text comes strictly before the later ones: sorted, without repetition.
pub open spec fn strictly_sorted(list: Seq<Seq<char>>) -> bool {
    forall|i: int, j: int| 0 <= i < j < list.len() ==> before(#[trigger] list[i], #[trigger] list[j])
}

/// A list in strictly ascending order holds nothing twice.
pub proof fn lemma_sorted_distinct(list: Seq<Seq<char>>)
    requires
        strictly_sorted(list),
    ensures
        list.no_duplicates(),
{
    assert forall|i: int, j: int| 0 <= i < list.len() && 0 <= j < list.len() && i != j implies list[i]
        != list[j] by {
        if i < j {
            lemma_before_total(list[i], list[j]);
        } else {
            lemma_before_total(list[j], list[i]);
        }
    }
}

/// Puts a string that a sorted list does not hold yet into its place.
pub fn insert_sorted(list: &mut Vec<String>, item: String)
    requires
        strictly_sorted(text::texts(old(list)@)),
        !text::texts(old(list)@).contains(item@),
    ensures
        strictly_sorted(text::texts(final(list)@)),
        text::texts(final(list)@).to_set() == text::texts(old(list)@).to_set().insert(item@),
        final(list)@.len() == old(list)@.len() + 1,
{
    let ghost start = text::texts(list@);
    let mut at: usize = 0;
    while at < list.len() && is_before(list[at].as_str(), item.as_str())
        invariant
            at <= list.len(),
            text::texts(list@) == start,
            forall|i: int| 0 <= i < at ==> before(start[i], item@),
        decreases list.len() - at,
    {
        assert(start[at as int] == list@[at as int]@);
        at += 1;
    }
    proof {
        assert forall|i: int| at <= i < start.len() implies before(item@, start[i]) by {
            assert(start[at as int] == list@[at as int]@);
            assert(start.contains(start[at as int]));
            lemma_before_total(start[at as int], item@);
            if i > at {
                lemma_before_transitive(item@, start[at as int], start[i]);
            }
        }
    }
    let ghost text = item@;
    list.insert(at, item);
    proof {
        let now = text::texts(list@);
        assert(now =~= start.insert(at as int, text));
        assert forall|i: int, j: int| 0 <= i < j < now.len() implies before(
            #[trigger] now[i],
            #[trigger] now[j],
        ) by {
            if i < at && j > at {
                assert(now[j] == start[j - 1]);
            }
        }
        assert forall|t: Seq<char>| now.contains(t) <==> start.contains(t) || t == text by {
            if now.contains(t) {
                let i = choose|i: int| 0 <= i < now.len() && now[i] == t;
                if i < at {
                    assert(start[i] == t);
                } else if i > at {
                    assert(start[i - 1] == t);
                }
            }
            if start.contains(t) {
                let i = choose|i: int| 0 <= i < start.len() && start[i] == t;
                if i < at {
                    assert(now[i] == t);
                } else {
                    assert(now[i + 1] == t);
                }
            }
            assert(now[at as int] == text);
        }
        assert(now.to_set() =~= start.to_set().insert(text));
    }
}

/// Every text comes at or before the later ones.
pub open spec fn sorted(list: Seq<Seq<char>>) -> bool {
    forall|i: int, j: int|
        0 <= i < j < list.len() ==> !before(#[trigger] list[j], #[trigger] list[i])
}

/// What is not before each of two neighbours is not before the first.
proof fn lemma_not_before_transitive(a: Seq<char>, b: Seq<char>, c: Seq<char>)
    requires
        !before(b, a),
        !before(c, b),
    ensures
        !before(c, a),
{
    if before(c, a) {
        lemma_before_total(a, b);
        lemma_before_total(b, c);
        lemma_before_total(c, a);
        if before(a, b) {
            lemma_before_transitive(c, a, b);
        }
    }
}

/// Puts a string into its place in a sorted list.
fn insert_in_order(list: &mut Vec<String>, item: String)
    requires
        sorted(text::texts(old(list)@)),
    ensures
        sorted(text::texts(final(list)@)),
        text::texts(final(list)@).to_multiset() == text::texts(old(list)@).to_multiset().insert(
            item@,
        ),
{
    let ghost start = text::texts(list@);
    let mut at: usize = 0;
    while at < list.len() && !is_before(item.as_str(), list[at].as_str())
        invariant
            at <= list.len(),
            text::texts(list@) == start,
            forall|i: int| 0 <= i < at ==> !before(item@, start[i]),
        decreases list.len() - at,
    {
        assert(start[at as int] == list@[at as int]@);
        at += 1;
    }
    let ghost t = item@;
    proof {
        assert forall|i: int| at <= i < start.len() implies !before(start[i], t) by {
            assert(start[at as int] == list@[at as int]@);
            lemma_before_total(t, start[at as int]);
            if i > at {
                lemma_not_before_transitive(t, start[at as int], start[i]);
            }
        }
    }
    list.insert(at, item);
    proof {
        let now = text::texts(list@);
        assert(now =~= start.insert(at as int, t));
        assert forall|i: int, j: int| 0 <= i < j < now.len() implies !before(
            #[trigger] now[j],
            #[trigger] now[i],
        ) by {
            if i < at && j > at {
                assert(now[j] == start[j - 1]);
            }
        }
        start.to_multiset_ensures();
        assert(start.insert(at as int, t).to_multiset() =~= start.to_multiset().insert(t)) by {
            lemma_insert_multiset(start, at as int, t);
        }
    }
}

proof fn lemma_insert_multiset(s: Seq<Seq<char>>, at: int, t: Seq<char>)
    requires
        0 <= at <= s.len(),
    ensures
        s.insert(at, t).to_multiset() == s.to_multiset().insert(t),
{
    let a = s.take(at);
    let b = s.skip(at);
    assert(s =~= a + b);
    assert(s.insert(at, t) =~= a.push(t) + b);
    vstd::seq_lib::lemma_multiset_commutative(a, b);
    vstd::seq_lib::lemma_multiset_commutative(a.push(t), b);
    a.to_multiset_ensures();
    assert(s.insert(at, t).to_multiset() =~= s.to_multiset().insert(t));
}

/// Sorts a list of strings.
pub fn sort(list: &[String]) -> (result: Vec<String>)
    ensures
        sorted(text::texts(result@)),
        text::texts(result@).to_multiset() == text::texts(list@).to_multiset(),
{
    let ghost all = text::texts(list@);
    let mut result: Vec<String> = Vec::new();
    let mut i: usize = 0;
    assert(all.take(0) =~= seq![]);
    assert(text::texts(result@) =~= seq![]);
    while i < list.len()
        invariant
            i <= list@.len(),
            all == text::texts(list@),
            sorted(text::texts(result@)),
            text::texts(result@).to_multiset() == all.take(i as int).to_multiset(),
        decreases list.len() - i,
    {
        insert_in_order(&mut result, list[i].clone());
        proof {
            let part = all.take(i as int);
            part.to_multiset_ensures();
            assert(all.take(i + 1) =~= part.push(all[i as int]));
        }
        i += 1;
    }
    assert(all.take(i as int) =~= all);
    result
}

/// A common beginning does not matter to the order; a text comes before its continuations; and
/// the first character that differs decides by its code point.
pub proof fn law_first_difference_decides(
    common: Seq<char>,
    a: Seq<char>,
    b: Seq<char>,
)
    ensures
        before(common + a, common + b) == before(a, b),
        a.len() > 0 ==> before(common, common + a),
        a.len() > 0 && b.len() > 0 && a[0] != b[0] ==> before(common + a, common + b) == ((
        a[0] as u32) < (b[0] as u32)),
    decreases common.len(),
{
    if common.len() == 0 {
        assert(common + a =~= a);
        assert(common + b =~= b);
    } else {
        let rest = common.drop_first();
        law_first_difference_decides(rest, a, b);
        assert((common + a).drop_first() =~= rest + a);
        assert((common + b).drop_first() =~= rest + b);
        assert((common + a)[0] == common[0] && (common + b)[0] == common[0]);
    }
}

} // verus!
