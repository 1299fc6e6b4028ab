//! Reconciliation of a permission tree against a newer structure.
use vstd::prelude::*;

use crate::roles::{
    item_at, item_named, item_wf, same_item, same_items, items_wf, position_of_item, position_of_value, value_at,
    value_named, values_unique, Item, RoleItems, Value,
};

verus! {

/// `v` with its data taken from the setting of `src` of the same name, if
/// there is one; its name and bounds stay.
pub open spec fn merge_value(src: Seq<Value>, v: Value) -> Value {
    match value_named(src, v.name@) {
        Some(s) => Value { name: v.name, data: s.data, options: v.options },
        None => v,
    }
}

/// The settings `dst` after taking over the data of `src`: same names, same
/// order, same bounds.
pub open spec fn merge_values(src: Seq<Value>, dst: Seq<Value>) -> Seq<Value> {
    dst.map_values(|v: Value| merge_value(src, v))
}

/// `new` is the item `old` reconciled against the items `src`: the same as
/// `old` where `src` has no item of its name, else with the settings and the
/// children of that item taken over, recursively.
pub open spec fn merged_item(src: Seq<Item>, old: Item, new: Item) -> bool
    decreases old,
{
    match item_named(src, old.name@) {
        None => same_item(new, old),
        Some(s) => {
            &&& new.name@ == old.name@
            &&& new.values.0@ == merge_values(s.values.0@, old.values.0@)
            &&& merged_items(s.items.0@, old.items.0@, new.items.0@)
        },
    }
}

/// `new` is the tree `old` reconciled against `src`, item by item, in the
/// order of `old`.
pub open spec fn merged_items(src: Seq<Item>, old: Seq<Item>, new: Seq<Item>) -> bool
    decreases old,
{
    &&& new.len() == old.len()
    &&& forall|i: int| 0 <= i < old.len() ==> merged_item(src, #[trigger] old[i], new[i])
}

/// Takes over into `dest` the data of the settings of `src` with the same names.
fn merge_value_list(src: &Vec<Value>, dest: &mut Vec<Value>)
    ensures
        final(dest)@ == merge_values(src@, old(dest)@),
{
    let mut rest: Vec<Value> = Vec::new();
    std::mem::swap(&mut rest, dest);
    let ghost orig = rest@;
    while rest.len() > 0
        invariant
            dest@.len() + rest@.len() == orig.len(),
            rest@ == orig.subrange(dest@.len() as int, orig.len() as int),
            forall|j: int| 0 <= j < dest@.len() ==> dest@[j] == merge_value(src@, orig[j]),
        decreases rest@.len(),
    {
        let ghost k = dest@.len() as int;
        let mut v = rest.remove(0);
        assert(v == orig[k]);
        match position_of_value(src, v.name.as_str()) {
            Some(at) => {
                v.data = src[at].data.copied();
            },
            None => {},
        }
        dest.push(v);
        assert(rest@ =~= orig.subrange(dest@.len() as int, orig.len() as int));
    }
    assert(dest@ =~= merge_values(src@, orig));
}

/// The items `dest` reconciled against `src`.
fn merge_item_list(src: &Vec<Item>, dest: Vec<Item>) -> (r: Vec<Item>)
    ensures
        merged_items(src@, dest@, r@),
    decreases dest,
{
    let ghost orig = dest@;
    let mut rest = dest;
    let mut out: Vec<Item> = Vec::new();
    while rest.len() > 0
        invariant
            out@.len() + rest@.len() == orig.len(),
            orig == dest@,
            rest@ == orig.subrange(out@.len() as int, orig.len() as int),
            forall|j: int| 0 <= j < out@.len() ==> merged_item(src@, #[trigger] orig[j], out@[j]),
        decreases rest@.len(),
    {
        let ghost k = out@.len() as int;
        let mut it = rest.remove(0);
        assert(it == orig[k]);
        match position_of_item(src, it.name.as_str()) {
            Some(at) => {
                let s = &src[at];
                merge_value_list(&s.values.0, &mut it.values.0);
                let mut children: Vec<Item> = Vec::new();
                std::mem::swap(&mut children, &mut it.items.0);
                assert(decreases_to!(dest => children));
                it.items.0 = merge_item_list(&s.items.0, children);
            },
            None => {
                proof {
                    lemma_same_items_refl(it.items.0@);
                }
            },
        }
        out.push(it);
        assert(rest@ =~= orig.subrange(out@.len() as int, orig.len() as int));
    }
    out
}

/// The names of the settings `vals`, in order.
pub open spec fn value_names(vals: Seq<Value>) -> Seq<Seq<char>> {
    vals.map_values(|v: Value| v.name@)
}

/// `a` and `b` have the same names in the same order at every level, items
/// and settings alike.
pub open spec fn same_shape(a: Seq<Item>, b: Seq<Item>) -> bool
    decreases a,
{
    &&& a.len() == b.len()
    &&& forall|i: int| 0 <= i < a.len() ==> same_item_shape(#[trigger] a[i], b[i])
}

/// `a` and `b` have the same name, setting names and child shape.
pub open spec fn same_item_shape(a: Item, b: Item) -> bool
    decreases a,
{
    &&& a.name@ == b.name@
    &&& value_names(a.values.0@) == value_names(b.values.0@)
    &&& same_shape(a.items.0@, b.items.0@)
}

proof fn lemma_value_named_has_name(vals: Seq<Value>, name: Seq<char>)
    requires
        value_named(vals, name) is Some,
    ensures
        value_named(vals, name)->Some_0.name@ == name,
        exists|i: int| 0 <= i < vals.len() && vals[i] == value_named(vals, name)->Some_0,
    decreases vals.len(),
{
    if vals[0].name@ != name {
        lemma_value_named_has_name(vals.drop_first(), name);
        let i = choose|i: int| 0 <= i < vals.drop_first().len() && vals.drop_first()[i] == value_named(vals, name)->Some_0;
        assert(vals[i + 1] == vals.drop_first()[i]);
    } else {
        assert(vals[0] == value_named(vals, name)->Some_0);
    }
}

proof fn lemma_item_named_has_name(items: Seq<Item>, name: Seq<char>)
    requires
        item_named(items, name) is Some,
    ensures
        item_named(items, name)->Some_0.name@ == name,
    decreases items.len(),
{
    if items[0].name@ != name {
        lemma_item_named_has_name(items.drop_first(), name);
    }
}

proof fn lemma_value_named_unique(vals: Seq<Value>, i: int)
    requires
        values_unique(vals),
        0 <= i < vals.len(),
    ensures
        value_named(vals, vals[i].name@) == Some(vals[i]),
    decreases i,
{
    if i > 0 {
        assert(vals[0].name@ != vals[i].name@);
        let rest = vals.drop_first();
        assert(rest[i - 1] == vals[i]);
        lemma_value_named_unique(rest, i - 1);
    }
}

proof fn lemma_item_named_unique(items: Seq<Item>, i: int)
    requires
        forall|j: int, k: int| 0 <= j < k < items.len() ==> items[j].name@ != items[k].name@,
        0 <= i < items.len(),
    ensures
        item_named(items, items[i].name@) == Some(items[i]),
    decreases i,
{
    if i > 0 {
        assert(items[0].name@ != items[i].name@);
        let rest = items.drop_first();
        assert(rest[i - 1] == items[i]);
        lemma_item_named_unique(rest, i - 1);
    }
}

proof fn lemma_merge_values_self(vals: Seq<Value>)
    requires
        values_unique(vals),
    ensures
        merge_values(vals, vals) == vals,
{
    assert forall|i: int| 0 <= i < vals.len() implies merge_value(vals, vals[i]) == vals[i] by {
        lemma_value_named_unique(vals, i);
    }
    assert(merge_values(vals, vals) =~= vals);
}

proof fn lemma_value_named_merged(src: Seq<Value>, dst: Seq<Value>, name: Seq<char>)
    ensures
        value_named(merge_values(src, dst), name) == match value_named(dst, name) {
            Some(v) => Some(merge_value(src, v)),
            None => None,
        },
    decreases dst.len(),
{
    if dst.len() > 0 {
        assert(merge_values(src, dst).drop_first() =~= merge_values(src, dst.drop_first()));
        assert(merge_values(src, dst)[0] == merge_value(src, dst[0]));
        lemma_value_named_merged(src, dst.drop_first(), name);
    }
}

proof fn lemma_merged_items_drop_first(src: Seq<Item>, old: Seq<Item>, new: Seq<Item>)
    requires
        merged_items(src, old, new),
        old.len() > 0,
    ensures
        merged_items(src, old.drop_first(), new.drop_first()),
{
    assert forall|i: int| 0 <= i < old.drop_first().len() implies merged_item(
        src,
        #[trigger] old.drop_first()[i],
        new.drop_first()[i],
    ) by {
        assert(old.drop_first()[i] == old[i + 1]);
        assert(new.drop_first()[i] == new[i + 1]);
    }
}

proof fn lemma_merged_item_named(src: Seq<Item>, old: Seq<Item>, new: Seq<Item>, name: Seq<char>)
    requires
        merged_items(src, old, new),
        item_named(old, name) is Some,
    ensures
        item_named(new, name) is Some,
        merged_item(src, item_named(old, name)->Some_0, item_named(new, name)->Some_0),
    decreases old.len(),
{
    assert(merged_item(src, old[0], new[0]));
    assert(new[0].name@ == old[0].name@);
    if old[0].name@ != name {
        lemma_merged_items_drop_first(src, old, new);
        lemma_merged_item_named(src, old.drop_first(), new.drop_first(), name);
    }
}

/// The item of the reconciled tree `new` at `path`, where `old` has one.
proof fn lemma_item_at_merged(src: Seq<Item>, old: Seq<Item>, new: Seq<Item>, path: Seq<Seq<char>>) -> (n: Item)
    requires
        merged_items(src, old, new),
        item_at(old, path) is Some,
    ensures
        item_at(new, path) == Some(n),
        ({
            let o = item_at(old, path)->Some_0;
            match item_at(src, path) {
                Some(s) => {
                    &&& n.name@ == o.name@
                    &&& n.values.0@ == merge_values(s.values.0@, o.values.0@)
                    &&& merged_items(s.items.0@, o.items.0@, n.items.0@)
                },
                None => same_item(n, o),
            }
        }),
    decreases path.len(),
{
    let o1 = item_named(old, path[0])->Some_0;
    lemma_merged_item_named(src, old, new, path[0]);
    let n1 = item_named(new, path[0])->Some_0;
    lemma_item_named_has_name(old, path[0]);
    if path.len() == 1 {
        n1
    } else {
        match item_named(src, path[0]) {
            Some(s1) => lemma_item_at_merged(s1.items.0@, o1.items.0@, n1.items.0@, path.drop_first()),
            None => {
                lemma_item_at_same(n1.items.0@, o1.items.0@, path.drop_first());
                item_at(new, path)->Some_0
            },
        }
    }
}

proof fn lemma_value_at_merged(src: Seq<Item>, old: Seq<Item>, new: Seq<Item>, path: Seq<Seq<char>>)
    requires
        merged_items(src, old, new),
        value_at(old, path) is Some,
    ensures
        ({
            let v = value_at(old, path)->Some_0;
            value_at(new, path) == Some(
                match value_at(src, path) {
                    Some(s) => Value { name: v.name, data: s.data, options: v.options },
                    None => v,
                },
            )
        }),
{
    let q = path.drop_last();
    let n = lemma_item_at_merged(src, old, new, q);
    let o = item_at(old, q)->Some_0;
    lemma_value_named_has_name(o.values.0@, path.last());
    match item_at(src, q) {
        Some(s) => {
            lemma_value_named_merged(s.values.0@, o.values.0@, path.last());
        },
        None => {},
    }
}

proof fn lemma_same_items_trans(a: Seq<Item>, b: Seq<Item>, c: Seq<Item>)
    requires
        same_items(a, b),
        same_items(b, c),
    ensures
        same_items(a, c),
    decreases a,
{
    assert forall|i: int| 0 <= i < a.len() implies same_item(#[trigger] a[i], c[i]) by {
        assert(same_item(a[i], b[i]));
        assert(same_item(b[i], c[i]));
        lemma_same_items_trans(a[i].items.0@, b[i].items.0@, c[i].items.0@);
    }
}

/// Reconciling a copy of a tree is reconciling the tree itself.
pub proof fn lemma_merged_items_of_copy(src: Seq<Item>, copy: Seq<Item>, orig: Seq<Item>, new: Seq<Item>)
    requires
        same_items(copy, orig),
        merged_items(src, copy, new),
    ensures
        merged_items(src, orig, new),
    decreases copy,
{
    assert forall|i: int| 0 <= i < orig.len() implies merged_item(src, #[trigger] orig[i], new[i]) by {
        assert(same_item(copy[i], orig[i]));
        assert(merged_item(src, copy[i], new[i]));
        match item_named(src, orig[i].name@) {
            Some(s) => {
                lemma_merged_items_of_copy(s.items.0@, copy[i].items.0@, orig[i].items.0@, new[i].items.0@);
            },
            None => {
                lemma_same_items_trans(new[i].items.0@, copy[i].items.0@, orig[i].items.0@);
            },
        }
    }
}

/// Reconciling a well-formed tree against itself changes nothing: every
/// item, setting and piece of data stays as it was.
pub proof fn lemma_merge_with_itself(t: Seq<Item>, r: Seq<Item>)
    requires
        items_wf(t),
        merged_items(t, t, r),
    ensures
        same_items(r, t),
    decreases t,
{
    assert forall|i: int| 0 <= i < r.len() implies same_item(#[trigger] r[i], t[i]) by {
        assert(item_wf(t[i]));
        assert(merged_item(t, t[i], r[i]));
        lemma_item_named_unique(t, i);
        lemma_merge_values_self(t[i].values.0@);
        lemma_merge_with_itself(t[i].items.0@, r[i].items.0@);
    }
}

proof fn lemma_same_items_refl(t: Seq<Item>)
    ensures
        same_items(t, t),
    decreases t,
{
    assert forall|i: int| 0 <= i < t.len() implies same_item(#[trigger] t[i], t[i]) by {
        lemma_same_items_refl(t[i].items.0@);
    }
}

proof fn lemma_same_items_shape(a: Seq<Item>, b: Seq<Item>)
    requires
        same_items(a, b),
    ensures
        same_shape(b, a),
    decreases a,
{
    assert forall|i: int| 0 <= i < b.len() implies same_item_shape(#[trigger] b[i], a[i]) by {
        assert(same_item(a[i], b[i]));
        lemma_same_items_shape(a[i].items.0@, b[i].items.0@);
    }
}

proof fn lemma_item_named_same(a: Seq<Item>, b: Seq<Item>, name: Seq<char>)
    requires
        same_items(a, b),
    ensures
        item_named(a, name) is Some <==> item_named(b, name) is Some,
        item_named(a, name) is Some ==> same_item(item_named(a, name)->Some_0, item_named(b, name)->Some_0),
    decreases a.len(),
{
    if a.len() > 0 {
        assert(same_item(a[0], b[0]));
        assert forall|i: int| 0 <= i < a.drop_first().len() implies same_item(
            #[trigger] a.drop_first()[i],
            b.drop_first()[i],
        ) by {
            assert(a.drop_first()[i] == a[i + 1]);
            assert(b.drop_first()[i] == b[i + 1]);
        }
        lemma_item_named_same(a.drop_first(), b.drop_first(), name);
    }
}

proof fn lemma_item_at_same(a: Seq<Item>, b: Seq<Item>, path: Seq<Seq<char>>)
    requires
        same_items(a, b),
    ensures
        item_at(a, path) is Some <==> item_at(b, path) is Some,
        item_at(a, path) is Some ==> same_item(item_at(a, path)->Some_0, item_at(b, path)->Some_0),
    decreases path.len(),
{
    if path.len() > 0 {
        lemma_item_named_same(a, b, path[0]);
        if path.len() > 1 && item_named(a, path[0]) is Some {
            let x = item_named(a, path[0])->Some_0;
            let y = item_named(b, path[0])->Some_0;
            lemma_item_at_same(x.items.0@, y.items.0@, path.drop_first());
        }
    }
}

/// Reconciliation never changes the structure of the destination: at every
/// level the result has the names that the destination had, in its order.
pub proof fn lemma_merge_keeps_shape(src: Seq<Item>, old: Seq<Item>, new: Seq<Item>)
    requires
        merged_items(src, old, new),
    ensures
        same_shape(old, new),
    decreases old,
{
    assert forall|i: int| 0 <= i < old.len() implies same_item_shape(#[trigger] old[i], new[i]) by {
        assert(merged_item(src, old[i], new[i]));
        match item_named(src, old[i].name@) {
            Some(s) => {
                assert(value_names(merge_values(s.values.0@, old[i].values.0@)) =~= value_names(old[i].values.0@));
                lemma_merge_keeps_shape(s.items.0@, old[i].items.0@, new[i].items.0@);
            },
            None => {
                lemma_same_items_shape(new[i].items.0@, old[i].items.0@);
            },
        }
    }
}

/// A setting that both trees have at the same path takes the source's data
/// in the result, and keeps the destination's name and bounds.
pub proof fn lemma_merge_takes_source_data(src: Seq<Item>, old: Seq<Item>, new: Seq<Item>, path: Seq<Seq<char>>)
    requires
        merged_items(src, old, new),
        value_at(old, path) is Some,
        value_at(src, path) is Some,
    ensures
        value_at(new, path) == Some(
            Value {
                name: value_at(old, path)->Some_0.name,
                data: value_at(src, path)->Some_0.data,
                options: value_at(old, path)->Some_0.options,
            },
        ),
{
    lemma_value_at_merged(src, old, new, path);
}

/// A setting that only the destination has stays as it was.
pub proof fn lemma_merge_keeps_own_value(src: Seq<Item>, old: Seq<Item>, new: Seq<Item>, path: Seq<Seq<char>>)
    requires
        merged_items(src, old, new),
        value_at(old, path) is Some,
        value_at(src, path) is None,
    ensures
        value_at(new, path) == value_at(old, path),
{
    lemma_value_at_merged(src, old, new, path);
}

/// An item that only the destination has stays as it was, with all below it.
pub proof fn lemma_merge_keeps_own_item(src: Seq<Item>, old: Seq<Item>, new: Seq<Item>, path: Seq<Seq<char>>)
    requires
        merged_items(src, old, new),
        item_at(old, path) is Some,
        item_at(src, path) is None,
    ensures
        item_at(new, path) is Some,
        same_item(item_at(new, path)->Some_0, item_at(old, path)->Some_0),
{
    lemma_item_at_merged(src, old, new, path);
}

proof fn lemma_merge_values_twice(src: Seq<Value>, dst: Seq<Value>)
    ensures
        merge_values(src, merge_values(src, dst)) == merge_values(src, dst),
{
    assert(merge_values(src, merge_values(src, dst)) =~= merge_values(src, dst));
}

/// Reconciling a second time against the same source changes nothing more:
/// the second result is the same as the first.
pub proof fn lemma_merge_twice(src: Seq<Item>, dst: Seq<Item>, once: Seq<Item>, twice: Seq<Item>)
    requires
        merged_items(src, dst, once),
        merged_items(src, once, twice),
    ensures
        same_items(twice, once),
    decreases dst,
{
    assert forall|i: int| 0 <= i < twice.len() implies same_item(#[trigger] twice[i], once[i]) by {
        assert(merged_item(src, dst[i], once[i]));
        assert(merged_item(src, once[i], twice[i]));
        assert(once[i].name@ == dst[i].name@);
        match item_named(src, dst[i].name@) {
            Some(s) => {
                lemma_merge_values_twice(s.values.0@, dst[i].values.0@);
                lemma_merge_twice(s.items.0@, dst[i].items.0@, once[i].items.0@, twice[i].items.0@);
            },
            None => {},
        }
    }
}

proof fn lemma_same_shape_keeps_wf(a: Seq<Item>, b: Seq<Item>)
    requires
        same_shape(a, b),
        items_wf(a),
    ensures
        items_wf(b),
    decreases a,
{
    assert forall|i: int, j: int| 0 <= i < j < b.len() implies b[i].name@ != b[j].name@ by {
        assert(same_item_shape(a[i], b[i]));
        assert(same_item_shape(a[j], b[j]));
    }
    assert forall|i: int| 0 <= i < b.len() implies item_wf(#[trigger] b[i]) by {
        assert(same_item_shape(a[i], b[i]));
        assert(item_wf(a[i]));
        let va = a[i].values.0@;
        let vb = b[i].values.0@;
        assert(value_names(va).len() == va.len() && value_names(vb).len() == vb.len());
        assert forall|x: int, y: int| 0 <= x < y < vb.len() implies vb[x].name@ != vb[y].name@ by {
            assert(value_names(va)[x] == value_names(vb)[x]);
            assert(value_names(va)[y] == value_names(vb)[y]);
            assert(values_unique(va));
            assert(va[x].name@ != va[y].name@);
        }
        lemma_same_shape_keeps_wf(a[i].items.0@, b[i].items.0@);
    }
}

impl RoleItems {
    /// Reconciles `dest` (the structure) against this tree (the overrides).
    ///
    /// Every item of `dest` keeps its place and its name. An item that this
    /// tree lacks stays as it was, with all below it. Otherwise each of its
    /// settings takes the data (not the bounds) of the same-named setting of
    /// the matching item here, where there is one, and its children are
    /// reconciled the same way. What only this tree has is left out.
    ///
    /// The data is taken over whatever its kind: a setting whose data here
    /// is of another kind than in `dest` (an integer for a boolean, say)
    /// takes this tree's data as it is, neither refused nor converted.
    pub fn merge(&self, dest: &mut RoleItems)
        ensures
            merged_items(self.0@, old(dest).0@, final(dest).0@),
            items_wf(old(dest).0@) ==> items_wf(final(dest).0@),
    {
        let mut items: Vec<Item> = Vec::new();
        std::mem::swap(&mut items, &mut dest.0);
        dest.0 = merge_item_list(&self.0, items);
        proof {
            lemma_merge_keeps_shape(self.0@, old(dest).0@, dest.0@);
            if items_wf(old(dest).0@) {
                lemma_same_shape_keeps_wf(old(dest).0@, dest.0@);
            }
        }
    }
}

} // verus!
