use vstd::prelude::*;
use crate::item::{TodoItem, ItemModel, models_of};
use crate::registry::Registry;

verus! {

/// `needle` occurs in `hay` as a contiguous run of characters.
pub open spec fn is_substring(hay: Seq<char>, needle: Seq<char>) -> bool {
    exists|i: int|
        0 <= i && i + needle.len() <= hay.len() && #[trigger] hay.subrange(i, i + needle.len())
            == needle
}

/// The record's task text contains the filter text.
pub open spec fn matches_filter(it: ItemModel, filter: Seq<char>) -> bool {
    is_substring(it.task, filter)
}

/// The derived view: the ordered subsequence of the records whose task
/// contains the filter text.
pub open spec fn filtered_model(items: Seq<ItemModel>, filter: Seq<char>) -> Seq<ItemModel> {
    items.filter(|it: ItemModel| matches_filter(it, filter))
}

/// Whether `needle` occurs in `hay`, checked character by character.
pub fn contains_text(hay: &str, needle: &str) -> (b: bool)
    ensures
        b == is_substring(hay@, needle@),
{
    let h = hay.unicode_len();
    let nd = needle.unicode_len();
    if nd > h {
        proof {
            assert(!is_substring(hay@, needle@)) by {
                if is_substring(hay@, needle@) {
                    let i = choose|i: int|
                        0 <= i && i + needle@.len() <= hay@.len() && #[trigger] hay@.subrange(
                            i,
                            i + needle@.len(),
                        ) == needle@;
                    assert(i + nd <= h);
                }
            }
        }
        return false;
    }
    let mut i: usize = 0;
    while i <= h - nd
        invariant
            h == hay@.len(),
            nd == needle@.len(),
            nd <= h,
            i <= h - nd + 1,
            forall|a: int| 0 <= a < i ==> #[trigger] hay@.subrange(a, a + nd) != needle@,
        decreases h - nd - i + 1,
    {
        let mut j: usize = 0;
        let mut matched = true;
        while j < nd && matched
            invariant
                h == hay@.len(),
                nd == needle@.len(),
                i + nd <= h,
                j <= nd,
                matched ==> forall|b: int| 0 <= b < j ==> hay@[i + b] == needle@[b],
                !matched ==> 0 <= j < nd && hay@[i + j] != needle@[j as int],
            decreases nd - j + (if matched {
                1int
            } else {
                0int
            }),
        {
            if hay.get_char(i + j) == needle.get_char(j) {
                j += 1;
            } else {
                matched = false;
            }
        }
        if matched {
            proof {
                assert(hay@.subrange(i as int, i + nd) =~= needle@);
            }
            return true;
        }
        proof {
            assert(hay@.subrange(i as int, i + nd) != needle@) by {
                assert(hay@.subrange(i as int, i + nd)[j as int] == hay@[i + j]);
            }
        }
        i += 1;
    }
    proof {
        assert(!is_substring(hay@, needle@)) by {
            if is_substring(hay@, needle@) {
                let a = choose|a: int|
                    0 <= a && a + needle@.len() <= hay@.len() && #[trigger] hay@.subrange(
                        a,
                        a + needle@.len(),
                    ) == needle@;
                assert(hay@.subrange(a, a + nd) != needle@);
            }
        }
    }
    false
}

/// The derived filtered view of the registry: pure and read-only, it
/// copies the matching records out in registry order; excluded records
/// stay in the registry, live and untouched.
pub fn filtered_view(registry: &Registry, filter: &str) -> (out: Vec<TodoItem>)
    requires
        registry.wf(),
    ensures
        models_of(out@) == filtered_model(registry.items(), filter@),
{
    let n = registry.len();
    let mut out: Vec<TodoItem> = Vec::new();
    let mut i: usize = 0;
    while i < n
        invariant
            registry.wf(),
            n == registry.items().len(),
            i <= n,
            models_of(out@) == filtered_model(registry.items().take(i as int), filter@),
        decreases n - i,
    {
        let ghost items = registry.items();
        let ghost prefix = models_of(out@);
        let t = registry.item_at(i);
        let keep = contains_text(t.task.as_str(), filter);
        if keep {
            out.push(t.clone());
            proof {
                assert(models_of(out@) =~= prefix.push(items[i as int]));
            }
        }
        i += 1;
        proof {
            let pred = |it: ItemModel| matches_filter(it, filter@);
            assert(items.take(i as int) =~= items.take(i - 1) + seq![items[i - 1]]);
            Seq::<ItemModel>::filter_distributes_over_add(
                items.take(i - 1),
                seq![items[i - 1]],
                pred,
            );
            lemma_filter_singleton(items[i - 1], pred);
            if pred(items[i - 1]) {
                assert(models_of(out@) =~= filtered_model(items.take(i as int), filter@));
            } else {
                assert(models_of(out@) =~= filtered_model(items.take(i as int), filter@));
            }
        }
    }
    proof {
        assert(registry.items().take(n as int) =~= registry.items());
    }
    out
}

/// Filtering a one-record sequence keeps or drops that record.
proof fn lemma_filter_singleton(x: ItemModel, pred: spec_fn(ItemModel) -> bool)
    ensures
        seq![x].filter(pred) == (if pred(x) {
            seq![x]
        } else {
            Seq::<ItemModel>::empty()
        }),
{
    reveal_with_fuel(Seq::<_>::filter, 2);
    assert(seq![x].drop_last() =~= Seq::<ItemModel>::empty());
    assert(seq![x].last() == x);
    if pred(x) {
        assert(seq![x].filter(pred) =~= seq![x]);
    } else {
        assert(seq![x].filter(pred) =~= Seq::<ItemModel>::empty());
    }
}

/// Every text contains the empty text.
pub proof fn lemma_empty_text_matches(t: Seq<char>)
    ensures
        is_substring(t, Seq::<char>::empty()),
{
    let nd = Seq::<char>::empty();
    assert(t.subrange(0, 0 + nd.len() as int) =~= nd);
}

/// The view under the empty filter is the full registry sequence, in
/// order.
pub proof fn lemma_empty_filter_keeps_all(items: Seq<ItemModel>)
    ensures
        filtered_model(items, Seq::<char>::empty()) == items,
    decreases items.len(),
{
    let pred = |it: ItemModel| matches_filter(it, Seq::<char>::empty());
    if items.len() == 0 {
        assert(items.filter(pred) =~= items);
    } else {
        let rest = items.drop_last();
        let x = items.last();
        lemma_empty_filter_keeps_all(rest);
        assert(items =~= rest + seq![x]);
        Seq::<ItemModel>::filter_distributes_over_add(rest, seq![x], pred);
        lemma_filter_singleton(x, pred);
        lemma_empty_text_matches(x.task);
        assert(items.filter(pred) =~= items);
    }
}

/// `xs` occurs in `ys` in order, possibly with gaps between its records.
pub open spec fn is_subsequence(xs: Seq<ItemModel>, ys: Seq<ItemModel>) -> bool
    decreases xs.len() + ys.len(),
{
    if xs.len() == 0 {
        true
    } else if ys.len() == 0 {
        false
    } else if xs.last() == ys.last() {
        is_subsequence(xs.drop_last(), ys.drop_last())
    } else {
        is_subsequence(xs, ys.drop_last())
    }
}

/// A subsequence of `ys` is one of `ys` with a record appended.
proof fn lemma_subsequence_extend(xs: Seq<ItemModel>, ys: Seq<ItemModel>, y: ItemModel)
    requires
        is_subsequence(xs, ys),
    ensures
        is_subsequence(xs, ys.push(y)),
    decreases xs.len() + ys.len(), 1int,
{
    if xs.len() != 0 {
        let yy = ys.push(y);
        assert(yy.last() == y);
        assert(yy.drop_last() =~= ys);
        if xs.last() == y {
            lemma_subsequence_drop_last(xs, ys);
        }
    }
}

/// Dropping the last record of a subsequence leaves a subsequence.
proof fn lemma_subsequence_drop_last(xs: Seq<ItemModel>, ys: Seq<ItemModel>)
    requires
        is_subsequence(xs, ys),
        xs.len() > 0,
    ensures
        is_subsequence(xs.drop_last(), ys),
    decreases xs.len() + ys.len(), 0int,
{
    if xs.last() == ys.last() {
        if xs.drop_last().len() != 0 {
            lemma_subsequence_extend(xs.drop_last(), ys.drop_last(), ys.last());
            assert(ys.drop_last().push(ys.last()) =~= ys);
        }
    } else {
        lemma_subsequence_drop_last(xs, ys.drop_last());
        lemma_subsequence_extend(xs.drop_last(), ys.drop_last(), ys.last());
        assert(ys.drop_last().push(ys.last()) =~= ys);
    }
}

/// Filter monotonicity: where every record matched by the narrower filter
/// also matches the wider one, the narrower view is a subsequence of the
/// wider view.
pub proof fn lemma_filter_monotone(items: Seq<ItemModel>, wide: Seq<char>, narrow: Seq<char>)
    requires
        forall|i: int|
            0 <= i < items.len() && matches_filter(#[trigger] items[i], narrow) ==> matches_filter(
                items[i],
                wide,
            ),
    ensures
        is_subsequence(filtered_model(items, narrow), filtered_model(items, wide)),
    decreases items.len(),
{
    let pn = |it: ItemModel| matches_filter(it, narrow);
    let pw = |it: ItemModel| matches_filter(it, wide);
    if items.len() == 0 {
        assert(items.filter(pn) =~= Seq::<ItemModel>::empty());
    } else {
        let rest = items.drop_last();
        let x = items.last();
        assert forall|i: int|
            0 <= i < rest.len() && matches_filter(#[trigger] rest[i], narrow) implies matches_filter(
            rest[i],
            wide,
        ) by {
            assert(rest[i] == items[i]);
        }
        lemma_filter_monotone(rest, wide, narrow);
        let a = rest.filter(pn);
        let b = rest.filter(pw);
        assert(items =~= rest + seq![x]);
        Seq::<ItemModel>::filter_distributes_over_add(rest, seq![x], pn);
        Seq::<ItemModel>::filter_distributes_over_add(rest, seq![x], pw);
        lemma_filter_singleton(x, pn);
        lemma_filter_singleton(x, pw);
        if pn(x) {
            assert(pw(x)) by {
                assert(items[items.len() - 1] == x);
            }
            assert(items.filter(pn) =~= a.push(x));
            assert(items.filter(pw) =~= b.push(x));
            assert(a.push(x).last() == b.push(x).last());
            assert(a.push(x).drop_last() =~= a);
            assert(b.push(x).drop_last() =~= b);
            assert(is_subsequence(a.push(x), b.push(x)));
        } else if pw(x) {
            assert(items.filter(pn) =~= a);
            assert(items.filter(pw) =~= b.push(x));
            lemma_subsequence_extend(a, b, x);
        } else {
            assert(items.filter(pn) =~= a);
            assert(items.filter(pw) =~= b);
        }
    }
}

} // verus!
