use vstd::prelude::*;
use crate::text::{
    join_with, joined, lemma_seq_lt_irreflexive, lemma_seq_lt_total, lemma_seq_lt_transitive,
    seq_lt, str_lt, trim_str, trimmed, views,
};
use vstd::seq_lib::{group_to_multiset_ensures, lemma_multiset_commutative};

verus! {

/// One fragment of the generated C header.  Only `content` appears in the
/// output; `order` gives a coarse position and `name` breaks ties.
pub struct HeaderItem {
    pub order: usize,
    pub name: String,
    pub content: String,
}

/// The mathematical value of a [`HeaderItem`].
pub struct ItemView {
    pub order: usize,
    pub name: Seq<char>,
    pub content: Seq<char>,
}

impl View for HeaderItem {
    type V = ItemView;

    open spec fn view(&self) -> ItemView {
        ItemView { order: self.order, name: self.name@, content: self.content@ }
    }
}

/// The views of a sequence of items.
pub open spec fn item_views(items: Seq<HeaderItem>) -> Seq<ItemView> {
    items.map_values(|i: HeaderItem| i@)
}

/// Whether `a` sorts strictly before `b`: by `order`, then by `name`.
pub open spec fn item_lt(a: ItemView, b: ItemView) -> bool {
    a.order < b.order || (a.order == b.order && seq_lt(a.name, b.name))
}

fn item_before(a: &HeaderItem, b: &HeaderItem) -> (r: bool)
    ensures
        r == item_lt(a@, b@),
{
    if a.order != b.order {
        a.order < b.order
    } else {
        str_lt(a.name.as_str(), b.name.as_str())
    }
}

/// `x` placed into `s` before the first item it sorts strictly before, so that
/// it comes after every item with an equal key.
pub open spec fn insert_sorted(x: ItemView, s: Seq<ItemView>) -> Seq<ItemView>
    decreases s.len(),
{
    if s.len() == 0 {
        seq![x]
    } else if item_lt(x, s[0]) {
        seq![x] + s
    } else {
        seq![s[0]] + insert_sorted(x, s.drop_first())
    }
}

/// The items in header order: ascending by `(order, name)`, items with equal
/// keys keeping their relative order.
pub open spec fn sorted_items(items: Seq<ItemView>) -> Seq<ItemView>
    decreases items.len(),
{
    if items.len() == 0 {
        Seq::empty()
    } else {
        insert_sorted(items.last(), sorted_items(items.drop_last()))
    }
}

/// The trimmed contents of the items, in the order given.
pub open spec fn trimmed_contents(items: Seq<ItemView>) -> Seq<Seq<char>> {
    items.map_values(|i: ItemView| trimmed(i.content))
}

/// The header text for a collection of items: their trimmed contents in header
/// order, separated by blank lines, with a final newline unless there are no
/// items at all.
pub open spec fn header_text(items: Seq<ItemView>) -> Seq<char> {
    if items.len() == 0 {
        Seq::empty()
    } else {
        joined(trimmed_contents(sorted_items(items)), seq!['\n', '\n']) + seq!['\n']
    }
}

/// Whether two items have the same `(order, name)` key.
pub open spec fn same_key(a: ItemView, b: ItemView) -> bool {
    a.order == b.order && a.name == b.name
}

/// Whether no two items share their `(order, name)` key.
pub open spec fn distinct_keys(s: Seq<ItemView>) -> bool {
    forall|i: int, j: int|
        0 <= i < s.len() && 0 <= j < s.len() && i != j ==> !same_key(#[trigger] s[i], #[trigger] s[j])
}

/// Whether the items are in header order.
pub open spec fn is_sorted(s: Seq<ItemView>) -> bool {
    forall|i: int, j: int| 0 <= i < j < s.len() ==> !item_lt(#[trigger] s[j], #[trigger] s[i])
}

proof fn lemma_item_lt_transitive(a: ItemView, b: ItemView, c: ItemView)
    requires
        item_lt(a, b),
        item_lt(b, c),
    ensures
        item_lt(a, c),
{
    if a.order == b.order && b.order == c.order {
        lemma_seq_lt_transitive(a.name, b.name, c.name);
    }
}

proof fn lemma_item_lt_total(a: ItemView, b: ItemView)
    ensures
        item_lt(a, b) || item_lt(b, a) || same_key(a, b),
{
    lemma_seq_lt_total(a.name, b.name);
}

proof fn lemma_item_lt_irreflexive(a: ItemView)
    ensures
        !item_lt(a, a),
{
    lemma_seq_lt_irreflexive(a.name);
}

proof fn lemma_insert_sorted_contains(x: ItemView, s: Seq<ItemView>, y: ItemView)
    requires
        insert_sorted(x, s).contains(y),
    ensures
        y == x || s.contains(y),
    decreases s.len(),
{
    if s.len() > 0 && !item_lt(x, s[0]) {
        let t = insert_sorted(x, s.drop_first());
        let i = choose|i: int| 0 <= i < insert_sorted(x, s).len() && insert_sorted(x, s)[i] == y;
        if i > 0 {
            assert(t[i - 1] == y);
            lemma_insert_sorted_contains(x, s.drop_first(), y);
            if s.drop_first().contains(y) {
                let k = choose|k: int| 0 <= k < s.drop_first().len() && s.drop_first()[k] == y;
                assert(s[k + 1] == y);
            }
        } else {
            assert(s[0] == y);
        }
    }
}

proof fn lemma_insert_sorted(x: ItemView, s: Seq<ItemView>)
    requires
        is_sorted(s),
    ensures
        is_sorted(insert_sorted(x, s)),
        insert_sorted(x, s).to_multiset() == s.to_multiset().insert(x),
        insert_sorted(x, s).len() == s.len() + 1,
    decreases s.len(),
{
    broadcast use group_to_multiset_ensures;

    if s.len() == 0 {
        assert(seq![x] =~= Seq::<ItemView>::empty().push(x));
    } else if item_lt(x, s[0]) {
        let r = seq![x] + s;
        assert forall|i: int, j: int| 0 <= i < j < r.len() implies !item_lt(
            #[trigger] r[j],
            #[trigger] r[i],
        ) by {
            if i == 0 {
                if j > 1 && item_lt(r[j], x) {
                    lemma_item_lt_transitive(r[j], x, s[0]);
                }
                if j == 1 && item_lt(s[0], x) {
                    lemma_item_lt_transitive(x, s[0], x);
                    lemma_item_lt_irreflexive(x);
                }
            } else {
                assert(r[i] == s[i - 1] && r[j] == s[j - 1]);
            }
        }
        lemma_multiset_commutative(seq![x], s);
        assert(seq![x] =~= Seq::<ItemView>::empty().push(x));
    } else {
        let rest = s.drop_first();
        assert forall|i: int, j: int| 0 <= i < j < rest.len() implies !item_lt(
            #[trigger] rest[j],
            #[trigger] rest[i],
        ) by {
            assert(rest[i] == s[i + 1] && rest[j] == s[j + 1]);
        }
        lemma_insert_sorted(x, rest);
        let t = insert_sorted(x, rest);
        let r = seq![s[0]] + t;
        assert forall|i: int, j: int| 0 <= i < j < r.len() implies !item_lt(
            #[trigger] r[j],
            #[trigger] r[i],
        ) by {
            if i == 0 {
                assert(r[j] == t[j - 1]);
                assert(t.contains(t[j - 1]));
                lemma_insert_sorted_contains(x, rest, t[j - 1]);
                if t[j - 1] != x {
                    let k = choose|k: int| 0 <= k < rest.len() && rest[k] == t[j - 1];
                    assert(s[k + 1] == rest[k]);
                }
            } else {
                assert(r[i] == t[i - 1] && r[j] == t[j - 1]);
            }
        }
        lemma_multiset_commutative(seq![s[0]], t);
        lemma_multiset_commutative(seq![s[0]], rest);
        assert(s =~= seq![s[0]] + rest);
        assert(seq![s[0]] =~= Seq::<ItemView>::empty().push(s[0]));
        assert(r.to_multiset() =~= s.to_multiset().insert(x));
    }
}

/// The header order holds the same items as it was given, ascending by order
/// and, among items of equal order, by name.
pub proof fn lemma_sorted_items(s: Seq<ItemView>)
    ensures
        is_sorted(sorted_items(s)),
        sorted_items(s).to_multiset() == s.to_multiset(),
    decreases s.len(),
{
    broadcast use group_to_multiset_ensures;

    if s.len() > 0 {
        lemma_sorted_items(s.drop_last());
        lemma_insert_sorted(s.last(), sorted_items(s.drop_last()));
        assert(s.drop_last().push(s.last()) =~= s);
    } else {
        assert(sorted_items(s) =~= s);
    }
}

/// Sequences holding the same items, one of which has distinct keys, both have
/// distinct keys.
proof fn lemma_distinct_keys_transfer(a: Seq<ItemView>, b: Seq<ItemView>)
    requires
        a.to_multiset() == b.to_multiset(),
        distinct_keys(b),
    ensures
        distinct_keys(a),
{
    broadcast use group_to_multiset_ensures;

    assert(b.no_duplicates()) by {
        assert forall|i: int, j: int| 0 <= i < b.len() && 0 <= j < b.len() && i != j implies b[i]
            != b[j] by {
            assert(!same_key(b[i], b[j]));
        }
    }
    b.lemma_multiset_has_no_duplicates();
    a.lemma_multiset_has_no_duplicates_conv();
    assert forall|i: int, j: int|
        0 <= i < a.len() && 0 <= j < a.len() && i != j implies !same_key(
        #[trigger] a[i],
        #[trigger] a[j],
    ) by {
        assert(a[i] != a[j]);
        assert(a.contains(a[i]) && a.contains(a[j]));
        assert(b.to_multiset().count(a[i]) > 0 && b.to_multiset().count(a[j]) > 0);
        let k = choose|k: int| 0 <= k < b.len() && b[k] == a[i];
        let m = choose|m: int| 0 <= m < b.len() && b[m] == a[j];
    }
}

/// Two sorted sequences with distinct keys that hold the same items are equal.
proof fn lemma_sorted_unique(s1: Seq<ItemView>, s2: Seq<ItemView>)
    requires
        is_sorted(s1),
        is_sorted(s2),
        distinct_keys(s1),
        s1.to_multiset() == s2.to_multiset(),
    ensures
        s1 == s2,
    decreases s1.len(),
{
    broadcast use group_to_multiset_ensures;

    assert(s1.len() == s1.to_multiset().len());
    assert(s2.len() == s2.to_multiset().len());
    if s1.len() == 0 {
        assert(s1 =~= s2);
    } else {
        let x = s1[0];
        let y = s2[0];
        assert(s1.contains(x) && s2.contains(y));
        assert(s1.to_multiset().count(x) > 0 && s2.to_multiset().count(y) > 0);
        assert(s2.contains(x) && s1.contains(y));
        let k = choose|k: int| 0 <= k < s2.len() && s2[k] == x;
        let m = choose|m: int| 0 <= m < s1.len() && s1[m] == y;
        if k != 0 && m != 0 {
            assert(!item_lt(s1[m], s1[0]));
            assert(!item_lt(s2[k], s2[0]));
            lemma_item_lt_total(x, y);
            assert(false);
        }
        assert(x == y);
        let t1 = s1.drop_first();
        let t2 = s2.drop_first();
        assert(s1.remove(0) =~= t1);
        assert(s2.remove(0) =~= t2);
        assert forall|i: int, j: int| 0 <= i < j < t1.len() implies !item_lt(
            #[trigger] t1[j],
            #[trigger] t1[i],
        ) by {
            assert(t1[i] == s1[i + 1] && t1[j] == s1[j + 1]);
        }
        assert forall|i: int, j: int| 0 <= i < j < t2.len() implies !item_lt(
            #[trigger] t2[j],
            #[trigger] t2[i],
        ) by {
            assert(t2[i] == s2[i + 1] && t2[j] == s2[j + 1]);
        }
        assert forall|i: int, j: int|
            0 <= i < t1.len() && 0 <= j < t1.len() && i != j implies !same_key(
            #[trigger] t1[i],
            #[trigger] t1[j],
        ) by {
            assert(t1[i] == s1[i + 1] && t1[j] == s1[j + 1]);
        }
        lemma_sorted_unique(t1, t2);
        assert forall|i: int| 0 <= i < s1.len() implies s1[i] == s2[i] by {
            if i > 0 {
                assert(s1[i] == t1[i - 1] && s2[i] == t2[i - 1]);
            }
        }
        assert(s1 =~= s2);
    }
}

/// The header text does not depend on the order in which the items were
/// registered: any two registrations of the same items, no two of which share
/// both order and name, render identically.
pub proof fn lemma_header_text_order_independent(a: Seq<ItemView>, b: Seq<ItemView>)
    requires
        a.to_multiset() == b.to_multiset(),
        distinct_keys(a),
    ensures
        header_text(a) == header_text(b),
{
    broadcast use group_to_multiset_ensures;

    lemma_sorted_items(a);
    lemma_sorted_items(b);
    lemma_distinct_keys_transfer(sorted_items(a), a);
    lemma_sorted_unique(sorted_items(a), sorted_items(b));
    assert(a.len() == a.to_multiset().len());
    assert(b.len() == b.to_multiset().len());
}

/// The header text is empty exactly when there are no items; otherwise it ends
/// with a newline.
pub proof fn lemma_header_text_empty(items: Seq<ItemView>)
    ensures
        (header_text(items).len() == 0) == (items.len() == 0),
        items.len() > 0 ==> header_text(items).last() == '\n',
{
}

proof fn lemma_insert_at(x: ItemView, s: Seq<ItemView>, pos: int)
    requires
        0 <= pos <= s.len(),
        forall|j: int| 0 <= j < pos ==> !item_lt(x, #[trigger] s[j]),
        pos < s.len() ==> item_lt(x, s[pos]),
    ensures
        insert_sorted(x, s) == s.insert(pos, x),
    decreases s.len(),
{
    if s.len() == 0 {
        assert(s.insert(pos, x) =~= seq![x]);
    } else if pos == 0 {
        assert(s.insert(pos, x) =~= seq![x] + s);
    } else {
        let t = s.drop_first();
        assert forall|j: int| 0 <= j < pos - 1 implies !item_lt(x, #[trigger] t[j]) by {
            assert(t[j] == s[j + 1]);
        }
        lemma_insert_at(x, t, pos - 1);
        assert(s.insert(pos, x) =~= seq![s[0]] + t.insert(pos - 1, x));
    }
}

/// The views of the items that `perm` points at, in the order of `perm`.
pub open spec fn permuted(items: Seq<HeaderItem>, perm: Seq<usize>) -> Seq<ItemView> {
    perm.map_values(|j: usize| items[j as int]@)
}

/// The index in `perm` before which `x` goes: the first item that `x` sorts
/// strictly before, or the end.
fn insertion_point(items: &Vec<HeaderItem>, perm: &Vec<usize>, x: &HeaderItem) -> (pos: usize)
    requires
        forall|k: int| 0 <= k < perm@.len() ==> #[trigger] perm@[k] < items@.len(),
    ensures
        pos <= perm@.len(),
        forall|j: int|
            0 <= j < pos ==> !item_lt(x@, #[trigger] permuted(items@, perm@)[j]),
        pos < perm@.len() ==> item_lt(x@, permuted(items@, perm@)[pos as int]),
{
    let mut pos: usize = 0;
    while pos < perm.len()
        invariant
            pos <= perm@.len(),
            forall|k: int| 0 <= k < perm@.len() ==> #[trigger] perm@[k] < items@.len(),
            forall|j: int|
                0 <= j < pos ==> !item_lt(x@, #[trigger] permuted(items@, perm@)[j]),
        decreases perm@.len() - pos,
    {
        if item_before(x, &items[perm[pos]]) {
            return pos;
        }
        pos = pos + 1;
    }
    pos
}

/// Generate the C header text from a collection of items: the items are put in
/// order by `(order, name)` and their trimmed contents are joined with blank
/// lines, followed by one newline.  No items give the empty string.
pub fn generate(items: Vec<HeaderItem>) -> (r: String)
    ensures
        r@ == header_text(item_views(items@)),
{
    let mut perm: Vec<usize> = Vec::new();
    let mut i: usize = 0;
    while i < items.len()
        invariant
            i <= items@.len(),
            forall|k: int| 0 <= k < perm@.len() ==> #[trigger] perm@[k] < items@.len(),
            permuted(items@, perm@) == sorted_items(item_views(items@.take(i as int))),
        decreases items@.len() - i,
    {
        let pos = insertion_point(&items, &perm, &items[i]);
        let ghost before = perm@;
        proof {
            lemma_insert_at(items@[i as int]@, permuted(items@, perm@), pos as int);
            assert(item_views(items@.take(i + 1)).drop_last() =~= item_views(
                items@.take(i as int),
            ));
        }
        perm.insert(pos, i);
        assert(permuted(items@, perm@) =~= permuted(items@, before).insert(
            pos as int,
            items@[i as int]@,
        ));
        i = i + 1;
    }
    assert(items@.take(items@.len() as int) =~= items@);

    let mut parts: Vec<String> = Vec::new();
    let mut k: usize = 0;
    while k < perm.len()
        invariant
            k <= perm@.len(),
            forall|k: int| 0 <= k < perm@.len() ==> #[trigger] perm@[k] < items@.len(),
            views(parts@) =~= trimmed_contents(permuted(items@, perm@).take(k as int)),
        decreases perm@.len() - k,
    {
        let piece = String::from_str(trim_str(items[perm[k]].content.as_str()));
        let ghost before = parts@;
        parts.push(piece);
        proof {
            let sorted = permuted(items@, perm@);
            assert(sorted.take(k + 1) =~= sorted.take(k as int).push(sorted[k as int]));
            assert(parts@ =~= before.push(piece));
            assert(views(parts@) =~= views(before).push(piece@));
            assert(trimmed_contents(sorted.take(k + 1)) =~= trimmed_contents(
                sorted.take(k as int),
            ).push(trimmed(sorted[k as int].content)));
        }
        k = k + 1;
    }
    assert(permuted(items@, perm@).take(perm@.len() as int) =~= permuted(items@, perm@));

    let mut result = join_with(&parts, "\n\n");
    proof {
        reveal_strlit("\n\n");
        reveal_strlit("\n");
        assert("\n\n"@ =~= seq!['\n', '\n']);
        assert("\n"@ =~= seq!['\n']);
    }
    if items.len() > 0 {
        result.append("\n");
    }
    proof {
        if items@.len() == 0 {
            assert(views(parts@).len() == 0);
        }
    }
    result
}

} // verus!
