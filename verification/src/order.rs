//! The order of file names, and the arrangement of a directory's entries by
//! it.

use vstd::prelude::*;

verus! {

/// Whether `a` comes no later than `b` where texts are ordered character by
/// character, a character with the lower code point first and a text before
/// its continuations. For strings this is the order of their UTF-8 bytes.
pub open spec fn name_le(a: Seq<char>, b: Seq<char>) -> bool
    decreases a.len(),
{
    if a.len() == 0 {
        true
    } else if b.len() == 0 {
        false
    } else if a[0] != b[0] {
        (a[0] as u32) < (b[0] as u32)
    } else {
        name_le(a.drop_first(), b.drop_first())
    }
}

proof fn lemma_code_points_differ(a: char, b: char)
    requires
        a != b,
    ensures
        a as u32 != b as u32,
{
}

/// Every name comes no later than itself.
pub proof fn lemma_name_le_reflexive(a: Seq<char>)
    ensures
        name_le(a, a),
    decreases a.len(),
{
    if a.len() > 0 {
        lemma_name_le_reflexive(a.drop_first());
    }
}

/// Of two names one comes no later than the other.
pub proof fn lemma_name_le_total(a: Seq<char>, b: Seq<char>)
    ensures
        name_le(a, b) || name_le(b, a),
    decreases a.len(),
{
    if a.len() > 0 && b.len() > 0 {
        if a[0] == b[0] {
            lemma_name_le_total(a.drop_first(), b.drop_first());
        } else {
            lemma_code_points_differ(a[0], b[0]);
        }
    }
}

/// What comes no later than a name comes no later than what that name
/// comes no later than.
pub proof fn lemma_name_le_transitive(a: Seq<char>, b: Seq<char>, c: Seq<char>)
    requires
        name_le(a, b),
        name_le(b, c),
    ensures
        name_le(a, c),
    decreases a.len(),
{
    if a.len() > 0 && a[0] == b[0] && b[0] == c[0] {
        lemma_name_le_transitive(a.drop_first(), b.drop_first(), c.drop_first());
    }
}

/// Two names of which each comes no later than the other are one name.
pub proof fn lemma_name_le_antisymmetric(a: Seq<char>, b: Seq<char>)
    requires
        name_le(a, b),
        name_le(b, a),
    ensures
        a == b,
    decreases a.len(),
{
    if a.len() > 0 {
        lemma_name_le_antisymmetric(a.drop_first(), b.drop_first());
        assert(a =~= seq![a[0]] + a.drop_first());
    }
}

/// A name comes no later than its continuations.
pub proof fn lemma_beginning_comes_first(a: Seq<char>, k: int)
    requires
        0 <= k <= a.len(),
    ensures
        name_le(a.take(k), a),
    decreases k,
{
    if k > 0 {
        assert(a.take(k).drop_first() =~= a.drop_first().take(k - 1));
        lemma_beginning_comes_first(a.drop_first(), k - 1);
    }
}

/// Whether the name `a` comes no later than the name `b`.
pub fn name_le_chars(a: &Vec<char>, b: &Vec<char>) -> (le: bool)
    ensures
        le == name_le(a@, b@),
{
    let mut i: usize = 0;
    assert(a@.skip(0) =~= a@);
    assert(b@.skip(0) =~= b@);
    while i < a.len() && i < b.len() && a[i] == b[i]
        invariant
            i <= a.len(),
            i <= b.len(),
            name_le(a@, b@) == name_le(a@.skip(i as int), b@.skip(i as int)),
        decreases a.len() - i,
    {
        assert(a@.skip(i as int).drop_first() =~= a@.skip(i + 1));
        assert(b@.skip(i as int).drop_first() =~= b@.skip(i + 1));
        i += 1;
    }
    if i == a.len() {
        true
    } else if i == b.len() {
        false
    } else {
        (a[i] as u32) < (b[i] as u32)
    }
}

/// The positions `order`, which are arranged by name, with the position `i`
/// put in after every position whose name comes no later than its own.
pub open spec fn insert_position(order: Seq<int>, names: Seq<Seq<char>>, i: int) -> Seq<int>
    decreases order.len(),
{
    if order.len() == 0 {
        seq![i]
    } else if name_le(names[order.last()], names[i]) {
        order.push(i)
    } else {
        insert_position(order.drop_last(), names, i).push(order.last())
    }
}

/// The first `n` positions of `names`, arranged by name; positions of one
/// name keep their order.
pub open spec fn sorted_order(names: Seq<Seq<char>>, n: nat) -> Seq<int>
    decreases n,
{
    if n == 0 {
        Seq::empty()
    } else {
        insert_position(sorted_order(names, (n - 1) as nat), names, n - 1)
    }
}

/// Whether the position `i` has its place before the position `j`: its name
/// comes no later, and where the two names are one, `i` is the lower
/// position.
pub open spec fn comes_before(names: Seq<Seq<char>>, i: int, j: int) -> bool {
    name_le(names[i], names[j]) && (names[i] == names[j] ==> i < j)
}

/// Whether `order` holds each of the first `n` positions once, each before
/// the positions that have their place after it.
pub open spec fn is_arrangement(order: Seq<int>, names: Seq<Seq<char>>, n: int) -> bool {
    &&& order.len() == n
    &&& forall|p: int| 0 <= p < n ==> 0 <= #[trigger] order[p] < n
    &&& forall|k: int| 0 <= k < n ==> #[trigger] order.contains(k)
    &&& forall|p: int, q: int|
        0 <= p < q < n ==> comes_before(names, #[trigger] order[p], #[trigger] order[q])
}

proof fn lemma_insert_position(order: Seq<int>, names: Seq<Seq<char>>, i: int) -> (at: int)
    ensures
        0 <= at <= order.len(),
        insert_position(order, names, i) == order.insert(at, i),
        at > 0 ==> name_le(names[order[at - 1]], names[i]),
        forall|p: int| at <= p < order.len() ==> !name_le(names[#[trigger] order[p]], names[i]),
    decreases order.len(),
{
    if order.len() == 0 {
        0
    } else if name_le(names[order.last()], names[i]) {
        order.len() as int
    } else {
        let at = lemma_insert_position(order.drop_last(), names, i);
        assert forall|p: int| at <= p < order.len() implies !name_le(
            names[#[trigger] order[p]],
            names[i],
        ) by {
            if p < order.len() - 1 {
                assert(order[p] == order.drop_last()[p]);
            }
        }
        at
    }
}

/// The order in which entries are gone through is an arrangement of all of
/// them by name: ascending, and entries of one name as they were listed.
pub proof fn lemma_sorted_order(names: Seq<Seq<char>>, n: nat)
    requires
        n <= names.len(),
    ensures
        is_arrangement(sorted_order(names, n), names, n as int),
    decreases n,
{
    if n > 0 {
        let last = n - 1;
        let before = sorted_order(names, last as nat);
        lemma_sorted_order(names, last as nat);
        let at = lemma_insert_position(before, names, last);
        let order = before.insert(at, last);
        assert forall|k: int| 0 <= k < n implies #[trigger] order.contains(k) by {
            if k == last {
                assert(order[at] == k);
            } else {
                assert(before.contains(k));
                let p = choose|p: int| 0 <= p < before.len() && before[p] == k;
                if p < at {
                    assert(order[p] == k);
                } else {
                    assert(order[p + 1] == k);
                }
            }
        }
        assert forall|p: int, q: int| 0 <= p < q < n implies comes_before(
            names,
            #[trigger] order[p],
            #[trigger] order[q],
        ) by {
            if p == at {
                lemma_name_le_total(names[before[q - 1]], names[last]);
                lemma_name_le_reflexive(names[last]);
            } else if q == at && p < at - 1 {
                lemma_name_le_transitive(names[before[p]], names[before[at - 1]], names[last]);
            }
        }
    }
}

/// No position stands twice in an arrangement.
pub proof fn lemma_arrangement_is_injective(order: Seq<int>, names: Seq<Seq<char>>, p: int, q: int)
    requires
        is_arrangement(order, names, order.len() as int),
        0 <= p < order.len(),
        0 <= q < order.len(),
        order[p] == order[q],
    ensures
        p == q,
{
}

/// The positions that `order` holds, as integers.
pub open spec fn positions(order: Seq<usize>) -> Seq<int> {
    Seq::new(order.len(), |p: int| order[p] as int)
}

/// The texts that `names` holds.
pub open spec fn texts(names: Seq<Vec<char>>) -> Seq<Seq<char>> {
    Seq::new(names.len(), |i: int| names[i]@)
}

/// The positions of `names`, arranged by name; positions of one name keep
/// their order.
pub fn sort_names(names: &Vec<Vec<char>>) -> (order: Vec<usize>)
    ensures
        positions(order@) == sorted_order(texts(names@), names.len() as nat),
        order.len() == names.len(),
        forall|p: int| 0 <= p < order.len() ==> #[trigger] order@[p] < names.len(),
{
    let ghost all = texts(names@);
    let mut order: Vec<usize> = Vec::new();
    let mut i: usize = 0;
    while i < names.len()
        invariant
            i <= names.len(),
            all == texts(names@),
            positions(order@) == sorted_order(all, i as nat),
            order.len() == i,
            forall|p: int| 0 <= p < order.len() ==> #[trigger] order@[p] < i,
        decreases names.len() - i,
    {
        let ghost before = positions(order@);
        let mut at: usize = order.len();
        assert(before.take(at as int) =~= before);
        while at > 0 && !name_le_chars(&names[order[at - 1]], &names[i])
            invariant
                at <= order.len(),
                i < names.len(),
                all == texts(names@),
                before == positions(order@),
                forall|p: int| 0 <= p < order.len() ==> #[trigger] order@[p] < i,
                insert_position(before, all, i as int) == insert_position(
                    before.take(at as int),
                    all,
                    i as int,
                ) + before.skip(at as int),
            decreases at,
        {
            assert(before.take(at as int).drop_last() =~= before.take(at - 1));
            at -= 1;
        }
        order.insert(at, i);
        i += 1;
    }
    order
}

} // verus!

