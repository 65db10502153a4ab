//! The order of texts: by their characters, as their UTF-8 bytes are ordered too.

use vstd::prelude::*;

use crate::text::{chars_of, same_text, texts};

verus! {

/// `a` comes before `b` in the order of their characters.
pub open spec fn text_before(a: Seq<char>, b: Seq<char>) -> bool
    decreases a.len(),
{
    if b.len() == 0 {
        false
    } else if a.len() == 0 {
        true
    } else if a[0] != b[0] {
        a[0] < b[0]
    } else {
        text_before(a.skip(1), b.skip(1))
    }
}

/// Of two different texts one comes before the other.
pub proof fn text_order_is_total(a: Seq<char>, b: Seq<char>)
    ensures
        a == b || text_before(a, b) || text_before(b, a),
        !(text_before(a, b) && text_before(b, a)),
        !text_before(a, a),
    decreases a.len(),
{
    if a.len() > 0 && b.len() > 0 {
        text_order_is_total(a.skip(1), b.skip(1));
        if a[0] == b[0] && a.skip(1) == b.skip(1) {
            assert(a =~= seq![a[0]] + a.skip(1));
            assert(b =~= seq![b[0]] + b.skip(1));
        }
        text_order_is_total(a.skip(1), a.skip(1));
    } else if a.len() == 0 && b.len() == 0 {
        assert(a =~= b);
    } else if a.len() > 0 {
        text_order_is_total(a.skip(1), a.skip(1));
    }
}

fn comes_before(a: &Vec<char>, b: &Vec<char>) -> (r: bool)
    ensures
        r == text_before(a@, b@),
{
    let mut i: usize = 0;
    assert(a@.skip(0) =~= a@);
    assert(b@.skip(0) =~= b@);
    while i < a.len() && i < b.len() && a[i] == b[i]
        invariant
            i <= a@.len(),
            i <= b@.len(),
            text_before(a@, b@) == text_before(a@.skip(i as int), b@.skip(i as int)),
        decreases a@.len() - i,
    {
        assert(a@.skip(i as int).skip(1) =~= a@.skip(i + 1));
        assert(b@.skip(i as int).skip(1) =~= b@.skip(i + 1));
        i = i + 1;
    }
    if i >= b.len() {
        false
    } else if i >= a.len() {
        true
    } else {
        a[i] < b[i]
    }
}

/// Each text comes before the next one.
pub open spec fn ascending(list: Seq<Seq<char>>) -> bool {
    forall|i: int|
        0 <= i < list.len() - 1 ==> text_before(#[trigger] list[i], list[i + 1])
}

proof fn order_carries_over(a: Seq<char>, b: Seq<char>, c: Seq<char>)
    requires
        text_before(a, b),
        text_before(b, c),
    ensures
        text_before(a, c),
    decreases a.len(),
{
    if a.len() > 0 && a[0] == b[0] && b[0] == c[0] {
        order_carries_over(a.skip(1), b.skip(1), c.skip(1));
    }
}

proof fn ascending_over(list: Seq<Seq<char>>, i: int, j: int)
    requires
        ascending(list),
        0 <= i < j < list.len(),
    ensures
        text_before(list[i], list[j]),
    decreases j - i,
{
    if i + 1 < j {
        ascending_over(list, i, j - 1);
        assert(text_before(list[j - 1], list[j - 1 + 1]));
        order_carries_over(list[i], list[j - 1], list[j]);
    } else {
        assert(text_before(list[i], list[i + 1]));
    }
}

/// In an ascending list every text stands once.
pub proof fn ascending_is_distinct(list: Seq<Seq<char>>)
    requires
        ascending(list),
    ensures
        list.no_duplicates(),
{
    assert forall|i: int, j: int|
        0 <= i < list.len() && 0 <= j < list.len() && i != j implies list[i] != list[j] by {
        if i < j {
            ascending_over(list, i, j);
        } else {
            ascending_over(list, j, i);
        }
        text_order_is_total(list[i], list[i]);
    }
}

/// Puts a text into an ascending list, unless it is there.
pub fn insert_sorted(list: &mut Vec<String>, name: String)
    requires
        ascending(texts(old(list)@)),
    ensures
        ascending(texts(final(list)@)),
        forall|t: Seq<char>| #[trigger]
            texts(final(list)@).contains(t) <==> texts(old(list)@).contains(t) || t == name@,
{
    let ghost before = texts(list@);
    let chars = chars_of(name.as_str());
    let mut at: usize = 0;
    while at < list.len() && comes_before(&chars_of(list[at].as_str()), &chars)
        invariant
            at <= list@.len(),
            list@ == old(list)@,
            before == texts(list@),
            chars@ == name@,
            at > 0 ==> text_before(before[at - 1], name@),
        decreases list@.len() - at,
    {
        assert(before[at as int] == list@[at as int]@);
        at = at + 1;
    }
    if at < list.len() && same_text(list[at].as_str(), name.as_str()) {
        assert(before[at as int] == name@);
        return;
    }
    proof {
        if at < list@.len() {
            assert(before[at as int] == list@[at as int]@);
            text_order_is_total(before[at as int], name@);
        }
    }
    list.insert(at, name);
    let ghost after = texts(list@);
    assert(after =~= before.insert(at as int, name@));
    assert forall|i: int| 0 <= i < after.len() - 1 implies text_before(
        #[trigger] after[i],
        after[i + 1],
    ) by {
        if i + 1 < at {
            assert(after[i] == before[i] && after[i + 1] == before[i + 1]);
        } else if i > at {
            assert(after[i] == before[i - 1] && after[i + 1] == before[i]);
        }
    }
    assert forall|t: Seq<char>| #[trigger] after.contains(t) <==> before.contains(t) || t
        == name@ by {
        if before.contains(t) {
            let k = choose|k: int| 0 <= k < before.len() && before[k] == t;
            if k < at {
                assert(after[k] == t);
            } else {
                assert(after[k + 1] == t);
            }
        }
        if t == name@ {
            assert(after[at as int] == t);
        }
        if after.contains(t) && t != name@ {
            let k = choose|k: int| 0 <= k < after.len() && after[k] == t;
            if k < at {
                assert(before[k] == t);
            } else {
                assert(before[k - 1] == t);
            }
        }
    }
}

} // verus!
