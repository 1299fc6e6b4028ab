//! Permission trees: typed named settings grouped in nested, uniquely named items.
use vstd::prelude::*;

use crate::error::UmtError;

verus! {

/// The data a setting holds.
///
/// A floating-point setting is held as the bits of its IEEE 754 binary64
/// encoding (`f64::to_bits`): the library only stores and copies it.
#[derive(Clone, Debug, PartialEq)]
pub enum DataValue {
    Boolean(bool),
    Integer(i64),
    Float(u64),
    String(String),
}

/// Bounds of a setting; each is expected to have the variant of the data it bounds.
#[derive(Clone, Debug, PartialEq)]
pub struct DataOptions {
    pub min_value: DataValue,
    pub max_value: DataValue,
}

/// A named leaf setting.
#[derive(Clone, Debug, PartialEq)]
pub struct Value {
    pub name: String,
    pub data: DataValue,
    pub options: Option<DataOptions>,
}

/// The settings of one item, in insertion order.
#[derive(Clone, Debug, PartialEq)]
pub struct RoleValues(pub Vec<Value>);

/// A named node: its own settings and its child items.
#[derive(Debug, PartialEq)]
pub struct Item {
    pub name: String,
    pub values: RoleValues,
    pub items: RoleItems,
}

/// An ordered set of uniquely named items: a permission tree.
#[derive(Debug, PartialEq)]
pub struct RoleItems(pub Vec<Item>);

/// The first setting of `vals` named `name`.
pub open spec fn value_named(vals: Seq<Value>, name: Seq<char>) -> Option<Value>
    decreases vals.len(),
{
    if vals.len() == 0 {
        None
    } else if vals[0].name@ == name {
        Some(vals[0])
    } else {
        value_named(vals.drop_first(), name)
    }
}

/// The first item of `items` named `name`.
pub open spec fn item_named(items: Seq<Item>, name: Seq<char>) -> Option<Item>
    decreases items.len(),
{
    if items.len() == 0 {
        None
    } else if items[0].name@ == name {
        Some(items[0])
    } else {
        item_named(items.drop_first(), name)
    }
}

proof fn lemma_value_named_skip(vals: Seq<Value>, i: int, name: Seq<char>)
    requires
        0 <= i < vals.len(),
        vals[i].name@ != name,
    ensures
        value_named(vals.subrange(i, vals.len() as int), name) == value_named(
            vals.subrange(i + 1, vals.len() as int),
            name,
        ),
{
    let s = vals.subrange(i, vals.len() as int);
    assert(s.drop_first() =~= vals.subrange(i + 1, vals.len() as int));
}

proof fn lemma_item_named_skip(items: Seq<Item>, i: int, name: Seq<char>)
    requires
        0 <= i < items.len(),
        items[i].name@ != name,
    ensures
        item_named(items.subrange(i, items.len() as int), name) == item_named(
            items.subrange(i + 1, items.len() as int),
            name,
        ),
{
    let s = items.subrange(i, items.len() as int);
    assert(s.drop_first() =~= items.subrange(i + 1, items.len() as int));
}

/// Compares two strings character by character.
pub fn same_chars(a: &str, b: &str) -> (r: bool)
    ensures
        r == (a@ == b@),
{
    let n = a.unicode_len();
    if n != b.unicode_len() {
        return false;
    }
    let mut i: usize = 0;
    while i < n
        invariant
            n == a@.len() == b@.len(),
            i <= n,
            forall|j: int| 0 <= j < i ==> a@[j] == b@[j],
        decreases n - i,
    {
        if a.get_char(i) != b.get_char(i) {
            return false;
        }
        i = i + 1;
    }
    assert(a@ =~= b@);
    true
}

/// Index of the first setting of `vals` named `name`.
pub(crate) fn position_of_value(vals: &Vec<Value>, name: &str) -> (r: Option<usize>)
    ensures
        match r {
            Some(i) => i < vals@.len() && value_named(vals@, name@) == Some(vals@[i as int])
                && vals@[i as int].name@ == name@ && forall|j: int| 0 <= j < i ==> vals@[j].name@ != name@,
            None => value_named(vals@, name@) is None && forall|j: int| 0 <= j < vals@.len() ==> vals@[j].name@ != name@,
        },
{
    let mut i: usize = 0;
    assert(vals@.subrange(0, vals@.len() as int) =~= vals@);
    while i < vals.len()
        invariant
            i <= vals@.len(),
            value_named(vals@, name@) == value_named(vals@.subrange(i as int, vals@.len() as int), name@),
            forall|j: int| 0 <= j < i ==> vals@[j].name@ != name@,
        decreases vals@.len() - i,
    {
        if same_chars(vals[i].name.as_str(), name) {
            let ghost s = vals@.subrange(i as int, vals@.len() as int);
            assert(s[0] == vals@[i as int]);
            return Some(i);
        }
        proof {
            lemma_value_named_skip(vals@, i as int, name@);
        }
        i = i + 1;
    }
    assert(vals@.subrange(i as int, vals@.len() as int).len() == 0);
    None
}

/// Index of the first item of `items` named `name`.
pub(crate) fn position_of_item(items: &Vec<Item>, name: &str) -> (r: Option<usize>)
    ensures
        match r {
            Some(i) => i < items@.len() && item_named(items@, name@) == Some(items@[i as int])
                && items@[i as int].name@ == name@ && forall|j: int| 0 <= j < i ==> items@[j].name@ != name@,
            None => item_named(items@, name@) is None && forall|j: int| 0 <= j < items@.len() ==> items@[j].name@ != name@,
        },
{
    let mut i: usize = 0;
    assert(items@.subrange(0, items@.len() as int) =~= items@);
    while i < items.len()
        invariant
            i <= items@.len(),
            item_named(items@, name@) == item_named(items@.subrange(i as int, items@.len() as int), name@),
            forall|j: int| 0 <= j < i ==> items@[j].name@ != name@,
        decreases items@.len() - i,
    {
        if same_chars(items[i].name.as_str(), name) {
            let ghost s = items@.subrange(i as int, items@.len() as int);
            assert(s[0] == items@[i as int]);
            return Some(i);
        }
        proof {
            lemma_item_named_skip(items@, i as int, name@);
        }
        i = i + 1;
    }
    assert(items@.subrange(i as int, items@.len() as int).len() == 0);
    None
}

impl DataValue {
    /// A copy of this data.
    pub fn copied(&self) -> (r: DataValue)
        ensures
            r == *self,
    {
        match self {
            DataValue::Boolean(b) => DataValue::Boolean(*b),
            DataValue::Integer(n) => DataValue::Integer(*n),
            DataValue::Float(bits) => DataValue::Float(*bits),
            DataValue::String(s) => DataValue::String(s.clone()),
        }
    }
}

/// The names of `vals` are pairwise distinct.
pub open spec fn values_unique(vals: Seq<Value>) -> bool {
    forall|i: int, j: int| 0 <= i < j < vals.len() ==> vals[i].name@ != vals[j].name@
}

/// The names of `items` are pairwise distinct.
pub open spec fn items_unique(items: Seq<Item>) -> bool {
    forall|i: int, j: int| 0 <= i < j < items.len() ==> items[i].name@ != items[j].name@
}

/// Names are unique among the settings of `it` and at every level below it.
pub open spec fn item_wf(it: Item) -> bool
    decreases it,
{
    &&& values_unique(it.values.0@)
    &&& items_wf(it.items.0@)
}

/// Names are unique at every level of the tree `items`.
pub open spec fn items_wf(items: Seq<Item>) -> bool
    decreases items,
{
    &&& items_unique(items)
    &&& forall|i: int| 0 <= i < items.len() ==> item_wf(#[trigger] items[i])
}

/// The names of a path given as string slices.
pub open spec fn path_view(path: Seq<&str>) -> Seq<Seq<char>> {
    path.map_values(|s: &str| s@)
}

/// The item that `path` names: each name picks an item among the children of
/// the one before, the first among the items of the tree.
pub open spec fn item_at(items: Seq<Item>, path: Seq<Seq<char>>) -> Option<Item>
    decreases path.len(),
{
    if path.len() == 0 {
        None
    } else {
        match item_named(items, path[0]) {
            None => None,
            Some(it) => if path.len() == 1 {
                Some(it)
            } else {
                item_at(it.items.0@, path.drop_first())
            },
        }
    }
}

/// The setting that `path` names: all its names but the last lead to an
/// item, and the last names one of that item's settings.
pub open spec fn value_at(items: Seq<Item>, path: Seq<Seq<char>>) -> Option<Value> {
    if path.len() < 2 {
        None
    } else {
        match item_at(items, path.drop_last()) {
            None => None,
            Some(it) => value_named(it.values.0@, path.last()),
        }
    }
}

/// `path` names a setting of `items` whose data is `true`.
pub open spec fn grants(items: Seq<Item>, path: Seq<Seq<char>>) -> bool {
    match value_at(items, path) {
        Some(v) => v.data == DataValue::Boolean(true),
        None => false,
    }
}

/// `a` and `b` hold the same items, settings and data in the same order, at
/// every level.
pub open spec fn same_items(a: Seq<Item>, b: Seq<Item>) -> bool
    decreases a,
{
    &&& a.len() == b.len()
    &&& forall|i: int| 0 <= i < a.len() ==> same_item(#[trigger] a[i], b[i])
}

/// `a` and `b` have the same name and settings, and the same children.
pub open spec fn same_item(a: Item, b: Item) -> bool
    decreases a,
{
    &&& a.name@ == b.name@
    &&& a.values.0@ == b.values.0@
    &&& same_items(a.items.0@, b.items.0@)
}

impl Value {
    /// A copy of this setting.
    pub fn copied(&self) -> (r: Value)
        ensures
            r == *self,
    {
        let options = match &self.options {
            Some(o) => Some(DataOptions { min_value: o.min_value.copied(), max_value: o.max_value.copied() }),
            None => None,
        };
        Value { name: self.name.clone(), data: self.data.copied(), options }
    }
}

fn copy_values(vals: &Vec<Value>) -> (r: Vec<Value>)
    ensures
        r@ == vals@,
{
    let mut r: Vec<Value> = Vec::new();
    let mut i: usize = 0;
    while i < vals.len()
        invariant
            i <= vals@.len(),
            r@ == vals@.subrange(0, i as int),
        decreases vals@.len() - i,
    {
        r.push(vals[i].copied());
        i = i + 1;
        assert(r@ =~= vals@.subrange(0, i as int));
    }
    assert(vals@.subrange(0, i as int) =~= vals@);
    r
}

fn copy_items(items: &Vec<Item>) -> (r: Vec<Item>)
    ensures
        same_items(r@, items@),
    decreases items,
{
    let mut r: Vec<Item> = Vec::new();
    let mut i: usize = 0;
    while i < items.len()
        invariant
            i <= items@.len(),
            r@.len() == i,
            forall|j: int| 0 <= j < i ==> same_item(#[trigger] r@[j], items@[j]),
        decreases items@.len() - i,
    {
        let it = &items[i];
        assert(decreases_to!(items => it.items.0));
        let children = copy_items(&it.items.0);
        r.push(Item { name: it.name.clone(), values: RoleValues(copy_values(&it.values.0)), items: RoleItems(children) });
        i = i + 1;
    }
    r
}

impl Default for RoleValues {
    fn default() -> (r: RoleValues)
        ensures
            r.0@ == Seq::<Value>::empty(),
    {
        RoleValues(Vec::new())
    }
}

impl Default for RoleItems {
    fn default() -> (r: RoleItems)
        ensures
            r.0@ == Seq::<Item>::empty(),
    {
        RoleItems(Vec::new())
    }
}

/// `vals` with `v` in place of the first setting of its name, or after the
/// others where none has it.
pub open spec fn upsert_value(vals: Seq<Value>, v: Value) -> Seq<Value>
    decreases vals.len(),
{
    if vals.len() == 0 {
        seq![v]
    } else if vals[0].name@ == v.name@ {
        vals.update(0, v)
    } else {
        seq![vals[0]] + upsert_value(vals.drop_first(), v)
    }
}

/// `items` with `it` in place of the first item of its name, or after the
/// others where none has it.
pub open spec fn upsert_item(items: Seq<Item>, it: Item) -> Seq<Item>
    decreases items.len(),
{
    if items.len() == 0 {
        seq![it]
    } else if items[0].name@ == it.name@ {
        items.update(0, it)
    } else {
        seq![items[0]] + upsert_item(items.drop_first(), it)
    }
}

proof fn lemma_upsert_value_at(vals: Seq<Value>, v: Value, i: int)
    requires
        0 <= i <= vals.len(),
        forall|j: int| 0 <= j < i ==> vals[j].name@ != v.name@,
        i < vals.len() ==> vals[i].name@ == v.name@,
    ensures
        upsert_value(vals, v) == if i < vals.len() { vals.update(i, v) } else { vals.push(v) },
    decreases i,
{
    if i > 0 {
        let rest = vals.drop_first();
        assert forall|j: int| 0 <= j < i - 1 implies rest[j].name@ != v.name@ by {
            assert(rest[j] == vals[j + 1]);
        }
        lemma_upsert_value_at(rest, v, i - 1);
        if i < vals.len() {
            assert(seq![vals[0]] + rest.update(i - 1, v) =~= vals.update(i, v));
        } else {
            assert(seq![vals[0]] + rest.push(v) =~= vals.push(v));
        }
    } else if vals.len() == 0 {
        assert(seq![v] =~= vals.push(v));
    }
}

proof fn lemma_upsert_item_at(items: Seq<Item>, it: Item, i: int)
    requires
        0 <= i <= items.len(),
        forall|j: int| 0 <= j < i ==> items[j].name@ != it.name@,
        i < items.len() ==> items[i].name@ == it.name@,
    ensures
        upsert_item(items, it) == if i < items.len() { items.update(i, it) } else { items.push(it) },
    decreases i,
{
    if i > 0 {
        let rest = items.drop_first();
        assert forall|j: int| 0 <= j < i - 1 implies rest[j].name@ != it.name@ by {
            assert(rest[j] == items[j + 1]);
        }
        lemma_upsert_item_at(rest, it, i - 1);
        if i < items.len() {
            assert(seq![items[0]] + rest.update(i - 1, it) =~= items.update(i, it));
        } else {
            assert(seq![items[0]] + rest.push(it) =~= items.push(it));
        }
    } else if items.len() == 0 {
        assert(seq![it] =~= items.push(it));
    }
}

impl RoleValues {
    /// Puts `v` in place of the setting of its name, keeping that setting's
    /// place, or adds it after the others.
    pub fn upsert(&mut self, v: Value)
        ensures
            final(self).0@ == upsert_value(old(self).0@, v),
            values_unique(old(self).0@) ==> values_unique(final(self).0@),
    {
        let ghost before = self.0@;
        match position_of_value(&self.0, v.name.as_str()) {
            Some(i) => {
                proof {
                    lemma_upsert_value_at(before, v, i as int);
                }
                self.0.set(i, v);
            },
            None => {
                proof {
                    lemma_upsert_value_at(before, v, before.len() as int);
                }
                self.0.push(v);
            },
        }
    }

    /// The settings, in order.
    pub fn inner(&self) -> (r: &Vec<Value>)
        ensures
            r == &self.0,
    {
        &self.0
    }

    /// The setting named `name`, if there is one.
    pub fn find(&self, name: &str) -> (r: Option<&Value>)
        ensures
            match r {
                Some(v) => value_named(self.0@, name@) == Some(*v),
                None => value_named(self.0@, name@) is None,
            },
    {
        match position_of_value(&self.0, name) {
            Some(i) => Some(&self.0[i]),
            None => None,
        }
    }
}

impl RoleItems {
    /// The tree of these items, in this order.
    pub fn new(items: Vec<Item>) -> (r: RoleItems)
        ensures
            r.0@ == items@,
    {
        RoleItems(items)
    }

    /// A copy of this tree, with the same items, settings and data.
    pub fn copied(&self) -> (r: RoleItems)
        ensures
            same_items(r.0@, self.0@),
    {
        RoleItems(copy_items(&self.0))
    }

    /// Puts `it` in place of the item of its name at this level, keeping that
    /// item's place, or adds it after the others.
    pub fn upsert(&mut self, it: Item)
        ensures
            final(self).0@ == upsert_item(old(self).0@, it),
            items_unique(old(self).0@) ==> items_unique(final(self).0@),
    {
        let ghost before = self.0@;
        match position_of_item(&self.0, it.name.as_str()) {
            Some(i) => {
                proof {
                    lemma_upsert_item_at(before, it, i as int);
                }
                self.0.set(i, it);
            },
            None => {
                proof {
                    lemma_upsert_item_at(before, it, before.len() as int);
                }
                self.0.push(it);
            },
        }
    }

    /// The item named `name` at this level, if there is one.
    pub fn find(&self, name: &str) -> (r: Option<&Item>)
        ensures
            match r {
                Some(it) => item_named(self.0@, name@) == Some(*it),
                None => item_named(self.0@, name@) is None,
            },
    {
        match position_of_item(&self.0, name) {
            Some(i) => Some(&self.0[i]),
            None => None,
        }
    }

    /// The setting that `path` names, or `NotFound` where an item on the way
    /// or the setting itself is missing.
    pub fn find_path(&self, path: &[&str]) -> (r: Result<&Value, UmtError>)
        ensures
            match r {
                Ok(v) => value_at(self.0@, path_view(path@)) == Some(*v),
                Err(e) => value_at(self.0@, path_view(path@)) is None && e == UmtError::NotFound,
            },
    {
        let ghost p = path_view(path@);
        let n = path.len();
        if n < 2 {
            return Err(UmtError::NotFound);
        }
        let ghost q = p.drop_last();
        let mut level: &RoleItems = self;
        let mut i: usize = 0;
        assert(q.subrange(0, q.len() as int) =~= q);
        loop
            invariant
                n == path@.len(),
                p == path_view(path@),
                q == p.drop_last(),
                n >= 2,
                i < n - 1,
                item_at(self.0@, q) == item_at(level.0@, q.subrange(i as int, q.len() as int)),
            decreases n - i,
        {
            let ghost rest = q.subrange(i as int, q.len() as int);
            assert(rest[0] == path@[i as int]@);
            match level.find(path[i]) {
                None => {
                    return Err(UmtError::NotFound);
                },
                Some(it) => {
                    if i + 2 == n {
                        assert(p.last() == path@[n - 1]@);
                        return match it.values.find(path[n - 1]) {
                            Some(v) => Ok(v),
                            None => Err(UmtError::NotFound),
                        };
                    }
                    assert(rest.drop_first() =~= q.subrange(i + 1, q.len() as int));
                    level = &it.items;
                    i = i + 1;
                },
            }
        }
    }

    /// Whether the setting at `path` exists and holds `true`; a missing
    /// setting denies.
    pub fn allows(&self, path: &[&str]) -> (r: bool)
        ensures
            r == grants(self.0@, path_view(path@)),
    {
        match self.find_path(path) {
            Ok(v) => match v.data {
                DataValue::Boolean(b) => b,
                _ => false,
            },
            Err(_) => false,
        }
    }
}

} // verus!
