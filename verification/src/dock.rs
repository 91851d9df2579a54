//! The saved layout of the desktop dock: its tabs, tab bars and splitters,
//! the rooms open in it, and the check that repairs a saved layout before it
//! is restored.

use vstd::prelude::*;

verus! {

// ---------------------------------------------------------------------------
// The layout
// ---------------------------------------------------------------------------

/// The geometry of a splitter: the default one between the rooms sidebar and
/// the main tabs, or one kept from the saved layout (an index into the
/// geometries the app keeps).
#[derive(Clone, Copy, Debug, PartialEq, Eq, Structural)]
pub enum SplitLayout {
    SidebarDefault,
    Kept(u64),
}

/// An item of the dock, referred to by its ID.
#[derive(Debug)]
pub enum DockItem {
    /// A tab: its name, template and content kind.
    Tab { name: String, template: u64, kind: u64 },
    /// A tab bar: its tabs (by ID) and the selected one.
    Tabs { tabs: Vec<u64>, selected: usize, closable: bool, hide_tab_bar: bool },
    /// A splitter between two items.
    Splitter { layout: SplitLayout, a: u64, b: u64 },
}

/// A dock item as plain values.
pub enum ItemModel {
    Tab { name: Seq<char>, template: u64, kind: u64 },
    Tabs { tabs: Seq<u64>, selected: usize, closable: bool, hide_tab_bar: bool },
    Splitter { layout: SplitLayout, a: u64, b: u64 },
}

pub open spec fn item_model(d: DockItem) -> ItemModel {
    match d {
        DockItem::Tab { name, template, kind } => ItemModel::Tab { name: name@, template, kind },
        DockItem::Tabs { tabs, selected, closable, hide_tab_bar } => ItemModel::Tabs { tabs: tabs@, selected, closable, hide_tab_bar },
        DockItem::Splitter { layout, a, b } => ItemModel::Splitter { layout, a, b },
    }
}

pub open spec fn items_model(v: Seq<(u64, DockItem)>) -> Seq<(u64, ItemModel)> {
    v.map_values(|e: (u64, DockItem)| (e.0, item_model(e.1)))
}

// ---------------------------------------------------------------------------
// Maps kept as lists of (key, value) pairs with distinct keys
// ---------------------------------------------------------------------------

/// Whether no key occurs twice.
pub open spec fn keys_distinct<V>(m: Seq<(u64, V)>) -> bool {
    forall|i: int, j: int| 0 <= i < j < m.len() ==> (#[trigger] m[i]).0 != (#[trigger] m[j]).0
}

/// The position of key `k`, or -1.
pub open spec fn key_index<V>(m: Seq<(u64, V)>, k: u64) -> int
    decreases m.len(),
{
    if m.len() == 0 {
        -1
    } else if m.last().0 == k {
        m.len() - 1
    } else {
        key_index(m.drop_last(), k)
    }
}

/// The value at key `k`.
pub open spec fn map_get<V>(m: Seq<(u64, V)>, k: u64) -> Option<V> {
    let i = key_index(m, k);
    if i >= 0 { Some(m[i].1) } else { None }
}

/// `m` with `k` set to `v`: in place when `k` is there, else at the end.
pub open spec fn map_insert<V>(m: Seq<(u64, V)>, k: u64, v: V) -> Seq<(u64, V)> {
    let i = key_index(m, k);
    if i >= 0 { m.update(i, (k, v)) } else { m.push((k, v)) }
}

/// `m` without key `k`.
pub open spec fn map_remove<V>(m: Seq<(u64, V)>, k: u64) -> Seq<(u64, V)> {
    let i = key_index(m, k);
    if i >= 0 { m.remove(i) } else { m }
}

pub proof fn lemma_key_index<V>(m: Seq<(u64, V)>, k: u64)
    ensures
        -1 <= key_index(m, k) < m.len(),
        key_index(m, k) >= 0 ==> m[key_index(m, k)].0 == k,
        key_index(m, k) < 0 ==> forall|i: int| 0 <= i < m.len() ==> (#[trigger] m[i]).0 != k,
        keys_distinct(m) && key_index(m, k) >= 0 ==> forall|i: int| 0 <= i < m.len() && i != key_index(m, k) ==> (#[trigger] m[i]).0 != k,
    decreases m.len(),
{
    if m.len() > 0 {
        lemma_key_index(m.drop_last(), k);
        assert forall|i: int| 0 <= i < m.len() - 1 implies m.drop_last()[i] == m[i] by {}
        if keys_distinct(m) {
            assert(keys_distinct(m.drop_last())) by {
                assert forall|i: int, j: int| 0 <= i < j < m.drop_last().len() implies (#[trigger] m.drop_last()[i]).0 != (#[trigger] m.drop_last()[j]).0 by {
                    assert(m.drop_last()[i] == m[i] && m.drop_last()[j] == m[j]);
                }
            }
        }
    }
}

proof fn lemma_insert_keeps_distinct<V>(m: Seq<(u64, V)>, k: u64, v: V)
    requires
        keys_distinct(m),
    ensures
        keys_distinct(map_insert(m, k, v)),
{
    lemma_key_index(m, k);
}

proof fn lemma_remove_keeps_distinct<V>(m: Seq<(u64, V)>, k: u64)
    requires
        keys_distinct(m),
    ensures
        keys_distinct(map_remove(m, k)),
        key_index(map_remove(m, k), k) < 0,
{
    lemma_key_index(m, k);
    let r = map_remove(m, k);
    let i = key_index(m, k);
    if i >= 0 {
        assert forall|a: int, b: int| 0 <= a < b < r.len() implies (#[trigger] r[a]).0 != (#[trigger] r[b]).0 by {
            let a2 = if a < i { a } else { a + 1 };
            let b2 = if b < i { b } else { b + 1 };
            assert(r[a] == m[a2] && r[b] == m[b2]);
        }
        assert forall|x: int| 0 <= x < r.len() implies (#[trigger] r[x]).0 != k by {
            let x2 = if x < i { x } else { x + 1 };
            assert(r[x] == m[x2]);
        }
    }
    lemma_key_index(r, k);
}

/// The position of key `k` in the list.
pub(crate) fn find_key<V>(m: &Vec<(u64, V)>, k: u64) -> (r: Option<usize>)
    ensures
        match r {
            Some(i) => key_index(m@, k) == i as int,
            None => key_index(m@, k) < 0,
        },
{
    let mut i = m.len();
    assert(m@.take(m@.len() as int) =~= m@);
    while i > 0
        invariant
            i <= m@.len(),
            key_index(m@, k) == key_index(m@.take(i as int), k),
        decreases i,
    {
        assert(m@.take(i as int).last() == m@[i - 1]);
        assert(m@.take(i as int).drop_last() =~= m@.take(i - 1));
        if m[i - 1].0 == k {
            return Some(i - 1);
        }
        i = i - 1;
    }
    None
}

// ---------------------------------------------------------------------------
// Walking the tree
// ---------------------------------------------------------------------------

/// Whether the item is a tab.
pub open spec fn is_tab(o: Option<ItemModel>) -> bool {
    o matches Some(ItemModel::Tab { .. })
}

/// The walk over the tabs of a tab bar: each tab that is a tab item and was
/// not reached yet is reached. `visiting` holds the containers on the path.
pub open spec fn visit_tab_children(items: Seq<(u64, ItemModel)>, tabs: Seq<u64>, order: Seq<u64>, visiting: Seq<u64>)
    -> Result<Seq<u64>, Seq<char>>
    decreases tabs.len(),
{
    if tabs.len() == 0 {
        Ok(order)
    } else {
        match visit_tab_children(items, tabs.drop_last(), order, visiting) {
            Err(e) => Err(e),
            Ok(o) => {
                let t = tabs.last();
                if !is_tab(map_get(items, t)) {
                    Ok(o)
                } else if visiting.contains(t) {
                    Err("dock item graph contains a cycle"@)
                } else if o.contains(t) {
                    Ok(o)
                } else {
                    Ok(o.push(t))
                }
            },
        }
    }
}

/// The depth-first walk from `id`: the items reached in order, or why the
/// layout is broken (a missing item, a cycle, a container reached twice, a
/// splitter with one child twice). `fuel` bounds the depth; from `walk` it
/// never runs out, since the containers on the path are distinct items.
pub open spec fn visit(items: Seq<(u64, ItemModel)>, id: u64, order: Seq<u64>, visiting: Seq<u64>, fuel: nat)
    -> Result<Seq<u64>, Seq<char>>
    decreases fuel,
{
    match map_get(items, id) {
        None => Err("dock item reference is missing"@),
        Some(item) => {
            if visiting.contains(id) {
                Err("dock item graph contains a cycle"@)
            } else if order.contains(id) {
                if item is Tab { Ok(order) } else { Err("dock container is referenced more than once"@) }
            } else if fuel == 0 {
                Err("dock item graph is deeper than its items"@)
            } else {
                let order1 = order.push(id);
                let visiting1 = visiting.push(id);
                match item {
                    ItemModel::Splitter { a, b, .. } => {
                        if a == b {
                            Err("splitter references the same child twice"@)
                        } else {
                            match visit(items, a, order1, visiting1, (fuel - 1) as nat) {
                                Err(e) => Err(e),
                                Ok(order2) => visit(items, b, order2, visiting1, (fuel - 1) as nat),
                            }
                        }
                    },
                    ItemModel::Tabs { tabs, .. } => visit_tab_children(items, tabs, order1, visiting1),
                    ItemModel::Tab { .. } => Ok(order1),
                }
            }
        },
    }
}

/// The items reached from `root`, in depth-first order, or why the layout is broken.
pub open spec fn walk(items: Seq<(u64, ItemModel)>, root: u64) -> Result<Seq<u64>, Seq<char>> {
    if map_get(items, root) is None {
        Err("root dock item is missing"@)
    } else {
        visit(items, root, Seq::empty(), Seq::empty(), (items.len() + 1) as nat)
    }
}

/// Keys and positions are those of the plain-value list.
pub proof fn lemma_items_model_keys(m: Seq<(u64, DockItem)>, k: u64)
    ensures
        key_index(items_model(m), k) == key_index(m, k),
        keys_distinct(m) == keys_distinct(items_model(m)),
        items_model(m).len() == m.len(),
    decreases m.len(),
{
    let mm = items_model(m);
    assert forall|i: int| 0 <= i < m.len() implies (#[trigger] mm[i]).0 == m[i].0 by {}
    if m.len() > 0 {
        lemma_items_model_keys(m.drop_last(), k);
        assert(items_model(m.drop_last()) =~= mm.drop_last());
    }
    if keys_distinct(m) {
        assert forall|i: int, j: int| 0 <= i < j < mm.len() implies (#[trigger] mm[i]).0 != (#[trigger] mm[j]).0 by {
            assert(mm[i].0 == m[i].0 && mm[j].0 == m[j].0);
        }
    }
    if keys_distinct(mm) {
        assert forall|i: int, j: int| 0 <= i < j < m.len() implies (#[trigger] m[i]).0 != (#[trigger] m[j]).0 by {
            assert(mm[i].0 == m[i].0 && mm[j].0 == m[j].0);
        }
    }
}

/// A list without duplicates whose entries are all keys of `m` is no longer than `m`.
proof fn lemma_distinct_keys_bound<V>(s: Seq<u64>, m: Seq<(u64, V)>)
    requires
        s.no_duplicates(),
        forall|i: int| 0 <= i < s.len() ==> key_index(m, #[trigger] s[i]) >= 0,
    ensures
        s.len() <= m.len(),
{
    let keys = m.map_values(|e: (u64, V)| e.0);
    assert forall|x: u64| s.to_set().contains(x) implies keys.to_set().contains(x) by {
        let i = choose|i: int| 0 <= i < s.len() && s[i] == x;
        lemma_key_index(m, s[i]);
        let j = key_index(m, s[i]);
        assert(keys[j] == x);
    }
    s.unique_seq_to_set();
    keys.lemma_cardinality_of_set();
    vstd::set_lib::lemma_len_subset(s.to_set(), keys.to_set());
}

fn vec_contains(v: &Vec<u64>, x: u64) -> (r: bool)
    ensures
        r == v@.contains(x),
{
    let mut i: usize = 0;
    while i < v.len()
        invariant
            i <= v@.len(),
            forall|j: int| 0 <= j < i ==> v@[j] != x,
        decreases v@.len() - i,
    {
        if v[i] == x {
            return true;
        }
        i = i + 1;
    }
    false
}

proof fn lemma_tab_children_err_prefix(items: Seq<(u64, ItemModel)>, tabs: Seq<u64>, n: int, order: Seq<u64>, visiting: Seq<u64>)
    requires
        0 <= n <= tabs.len(),
        visit_tab_children(items, tabs.take(n), order, visiting) is Err,
    ensures
        visit_tab_children(items, tabs, order, visiting) == visit_tab_children(items, tabs.take(n), order, visiting),
    decreases tabs.len() - n,
{
    if n < tabs.len() {
        assert(tabs.take(n + 1).drop_last() =~= tabs.take(n));
        lemma_tab_children_err_prefix(items, tabs, n + 1, order, visiting);
    } else {
        assert(tabs.take(n) =~= tabs);
    }
}

fn visit_exec(items: &Vec<(u64, DockItem)>, id: u64, order: &mut Vec<u64>, visiting: &mut Vec<u64>, Ghost(fuel): Ghost<nat>)
    -> (r: Result<(), &'static str>)
    requires
        keys_distinct(items@),
        old(visiting)@.no_duplicates(),
        forall|i: int| 0 <= i < old(visiting)@.len() ==> key_index(items@, #[trigger] old(visiting)@[i]) >= 0,
        fuel + old(visiting)@.len() >= items@.len() + 1,
    ensures
        match visit(items_model(items@), id, old(order)@, old(visiting)@, fuel) {
            Ok(o) => r is Ok && final(order)@ == o && final(visiting)@ == old(visiting)@,
            Err(e) => r matches Err(e2) && e2@ == e,
        },
    decreases fuel,
{
    let ghost im = items_model(items@);
    proof { lemma_items_model_keys(items@, id); lemma_key_index(items@, id); }
    let i = match find_key(items, id) {
        Some(i) => i,
        None => return Err("dock item reference is missing"),
    };
    assert(map_get(im, id) == Some(item_model(items@[i as int].1)));
    if vec_contains(visiting, id) {
        return Err("dock item graph contains a cycle");
    }
    if vec_contains(order, id) {
        return match &items[i].1 {
            DockItem::Tab { .. } => Ok(()),
            _ => Err("dock container is referenced more than once"),
        };
    }
    proof {
        let v1 = visiting@.push(id);
        assert(v1.no_duplicates());
        assert forall|j: int| 0 <= j < v1.len() implies key_index(items@, #[trigger] v1[j]) >= 0 by {
            if j < visiting@.len() { assert(v1[j] == visiting@[j]); }
        }
        lemma_distinct_keys_bound(v1, items@);
    }
    let ghost order0 = order@;
    let ghost visiting0 = visiting@;
    order.push(id);
    visiting.push(id);
    match &items[i].1 {
        DockItem::Splitter { a, b, .. } => {
            if *a == *b {
                return Err("splitter references the same child twice");
            }
            let ghost visiting1 = visiting@;
            assert forall|j: int| 0 <= j < visiting1.len() implies key_index(items@, #[trigger] visiting1[j]) >= 0 by {
                if j < visiting0.len() { assert(visiting1[j] == visiting0[j]); }
            }
            match visit_exec(items, *a, order, visiting, Ghost((fuel - 1) as nat)) {
                Err(e) => return Err(e),
                Ok(()) => {},
            }
            match visit_exec(items, *b, order, visiting, Ghost((fuel - 1) as nat)) {
                Err(e) => return Err(e),
                Ok(()) => {},
            }
        },
        DockItem::Tabs { tabs, .. } => {
            let ghost order1 = order@;
            let ghost visiting1 = visiting@;
            let mut j: usize = 0;
            assert(tabs@.take(0) =~= Seq::<u64>::empty());
            assert(visit(im, id, old(order)@, old(visiting)@, fuel) == visit_tab_children(im, tabs@, order1, visiting1));
            while j < tabs.len()
                invariant
                    j <= tabs@.len(),
                    visit(im, id, old(order)@, old(visiting)@, fuel) == visit_tab_children(im, tabs@, order1, visiting1),
                    visiting@ == visiting1,
                    im == items_model(items@),
                    keys_distinct(items@),
                    visit_tab_children(im, tabs@.take(j as int), order1, visiting1) == Ok::<Seq<u64>, Seq<char>>(order@),
                decreases tabs@.len() - j,
            {
                let t = tabs[j];
                assert(tabs@.take(j + 1).drop_last() =~= tabs@.take(j as int));
                assert(tabs@.take(j + 1).last() == t);
                proof { lemma_items_model_keys(items@, t); lemma_key_index(items@, t); }
                let tab_child = match find_key(items, t) {
                    Some(k) => {
                        assert(map_get(im, t) == Some(item_model(items@[k as int].1)));
                        match &items[k].1 {
                            DockItem::Tab { .. } => true,
                            _ => false,
                        }
                    },
                    None => false,
                };
                assert(tab_child == is_tab(map_get(im, t)));
                if tab_child {
                    if vec_contains(visiting, t) {
                        assert(visit_tab_children(im, tabs@.take(j + 1), order1, visiting1) == Err::<Seq<u64>, Seq<char>>("dock item graph contains a cycle"@));
                        proof { lemma_tab_children_err_prefix(im, tabs@, j + 1, order1, visiting1); }
                        return Err("dock item graph contains a cycle");
                    }
                    if !vec_contains(order, t) {
                        order.push(t);
                    }
                }
                j = j + 1;
            }
            assert(tabs@.take(j as int) =~= tabs@);
        },
        DockItem::Tab { .. } => {},
    }
    visiting.pop();
    assert(visiting@ =~= visiting0);
    Ok(())
}

/// Walks the tree from `root`: the items reached, in depth-first order, or
/// why the layout is broken.
pub fn walk_dock_tree(items: &Vec<(u64, DockItem)>, root: u64) -> (r: Result<Vec<u64>, &'static str>)
    requires
        keys_distinct(items@),
    ensures
        match walk(items_model(items@), root) {
            Ok(o) => r matches Ok(v) && v@ == o,
            Err(e) => r matches Err(e2) && e2@ == e,
        },
{
    proof { lemma_items_model_keys(items@, root); lemma_key_index(items@, root); }
    if find_key(items, root).is_none() {
        return Err("root dock item is missing");
    }
    let mut order: Vec<u64> = Vec::new();
    let mut visiting: Vec<u64> = Vec::new();
    assert(visiting@.no_duplicates());
    match visit_exec(items, root, &mut order, &mut visiting, Ghost((items@.len() + 1) as nat)) {
        Ok(()) => Ok(order),
        Err(e) => Err(e),
    }
}

// ---------------------------------------------------------------------------
// Operations on the items
// ---------------------------------------------------------------------------

proof fn lemma_items_model_update(m: Seq<(u64, DockItem)>, i: int, k: u64, v: DockItem)
    requires
        0 <= i < m.len(),
    ensures
        items_model(m.update(i, (k, v))) == items_model(m).update(i, (k, item_model(v))),
{
    assert(items_model(m.update(i, (k, v))) =~= items_model(m).update(i, (k, item_model(v))));
}

/// A copy of an item.
fn copy_item(d: &DockItem) -> (r: DockItem)
    ensures
        item_model(r) == item_model(*d),
{
    match d {
        DockItem::Tab { name, template, kind } => DockItem::Tab { name: name.clone(), template: *template, kind: *kind },
        DockItem::Tabs { tabs, selected, closable, hide_tab_bar } => {
            let mut t: Vec<u64> = Vec::new();
            let mut i: usize = 0;
            while i < tabs.len()
                invariant
                    i <= tabs@.len(),
                    t@ == tabs@.take(i as int),
                decreases tabs@.len() - i,
            {
                t.push(tabs[i]);
                assert(tabs@.take(i + 1) =~= tabs@.take(i as int).push(tabs@[i as int]));
                i = i + 1;
            }
            assert(tabs@.take(i as int) =~= tabs@);
            DockItem::Tabs { tabs: t, selected: *selected, closable: *closable, hide_tab_bar: *hide_tab_bar }
        },
        DockItem::Splitter { layout, a, b } => DockItem::Splitter { layout: *layout, a: *a, b: *b },
    }
}

/// The item at key `k`, as plain values.
fn item_at(items: &Vec<(u64, DockItem)>, k: u64) -> (r: Option<usize>)
    ensures
        match r {
            Some(i) => i < items@.len() && items@[i as int].0 == k
                && map_get(items_model(items@), k) == Some(item_model(items@[i as int].1)),
            None => map_get(items_model(items@), k) is None,
        },
{
    proof { lemma_items_model_keys(items@, k); lemma_key_index(items@, k); }
    find_key(items, k)
}

/// Sets key `k` to `v`.
fn items_insert(items: &mut Vec<(u64, DockItem)>, k: u64, v: DockItem)
    requires
        keys_distinct(old(items)@),
    ensures
        items_model(final(items)@) == map_insert(items_model(old(items)@), k, item_model(v)),
        keys_distinct(final(items)@),
{
    proof {
        lemma_items_model_keys(old(items)@, k);
        lemma_key_index(old(items)@, k);
        lemma_insert_keeps_distinct(old(items)@, k, v);
    }
    match find_key(items, k) {
        Some(i) => {
            proof { lemma_items_model_update(old(items)@, i as int, k, v); }
            items.set(i, (k, v));
            assert(items@ == old(items)@.update(i as int, (k, v)));
        },
        None => {
            items.push((k, v));
            assert(items_model(items@) =~= items_model(old(items)@).push((k, item_model(v))));
            assert(items@ == old(items)@.push((k, v)));
        },
    }
    proof { lemma_items_model_keys(items@, k); }
}

/// Removes key `k`; returns its item, if it was there.
fn items_remove(items: &mut Vec<(u64, DockItem)>, k: u64) -> (r: Option<DockItem>)
    requires
        keys_distinct(old(items)@),
    ensures
        items_model(final(items)@) == map_remove(items_model(old(items)@), k),
        keys_distinct(final(items)@),
        match r {
            Some(d) => map_get(items_model(old(items)@), k) == Some(item_model(d)),
            None => map_get(items_model(old(items)@), k) is None,
        },
{
    proof {
        lemma_items_model_keys(old(items)@, k);
        lemma_key_index(old(items)@, k);
        lemma_remove_keeps_distinct(old(items)@, k);
    }
    match find_key(items, k) {
        Some(i) => {
            let (_, d) = items.remove(i);
            assert(items@ == old(items)@.remove(i as int));
            assert(items_model(items@) =~= items_model(old(items)@).remove(i as int));
            Some(d)
        },
        None => None,
    }
}

/// Whether some tab bar lists the tab.
pub open spec fn any_tabs_contains(items: Seq<(u64, ItemModel)>, tab_id: u64) -> bool {
    exists|i: int| 0 <= i < items.len() && lists_tab((#[trigger] items[i]).1, tab_id)
}

/// Whether the item is a tab bar that lists the tab.
pub open spec fn lists_tab(item: ItemModel, tab_id: u64) -> bool {
    item matches ItemModel::Tabs { tabs, .. } && tabs.contains(tab_id)
}

/// Whether the item is a splitter with `id` as a child.
pub open spec fn splits(item: ItemModel, id: u64) -> bool {
    item matches ItemModel::Splitter { a, b, .. } && (a == id || b == id)
}

fn any_tabs_contains_exec(items: &Vec<(u64, DockItem)>, tab_id: u64) -> (r: bool)
    ensures
        r == any_tabs_contains(items_model(items@), tab_id),
{
    let ghost im = items_model(items@);
    let mut i: usize = 0;
    while i < items.len()
        invariant
            i <= items@.len(),
            im == items_model(items@),
            forall|j: int| 0 <= j < i ==> !lists_tab((#[trigger] im[j]).1, tab_id),
        decreases items@.len() - i,
    {
        if let DockItem::Tabs { tabs, .. } = &items[i].1 {
            if vec_contains(tabs, tab_id) {
                assert(lists_tab(im[i as int].1, tab_id));
                return true;
            }
        }
        i = i + 1;
    }
    false
}

/// Makes sure a fixed tab exists: adds it when missing; refused when its ID
/// holds a container.
pub open spec fn ensure_fixed_tab(items: Seq<(u64, ItemModel)>, tab_id: u64, tab: ItemModel) -> Result<(bool, Seq<(u64, ItemModel)>), Seq<char>> {
    match map_get(items, tab_id) {
        Some(ItemModel::Tab { .. }) => Ok((false, items)),
        None => Ok((true, map_insert(items, tab_id, tab))),
        Some(_) => Err("fixed tab id collides with a dock container"@),
    }
}

fn ensure_fixed_tab_item(items: &mut Vec<(u64, DockItem)>, tab_id: u64, tab_item: DockItem) -> (r: Result<bool, &'static str>)
    requires
        keys_distinct(old(items)@),
    ensures
        keys_distinct(final(items)@),
        match ensure_fixed_tab(items_model(old(items)@), tab_id, item_model(tab_item)) {
            Ok(p) => r == Ok::<bool, &'static str>(p.0) && items_model(final(items)@) == p.1,
            Err(e) => r matches Err(e2) && e2@ == e && final(items)@ == old(items)@,
        },
{
    match item_at(items, tab_id) {
        Some(i) => match &items[i].1 {
            DockItem::Tab { .. } => Ok(false),
            _ => Err("fixed tab id collides with a dock container"),
        },
        None => {
            items_insert(items, tab_id, tab_item);
            Ok(true)
        },
    }
}

/// Makes sure the tab bar `tabs_id` lists `tab_id`: adds it first (keeping
/// the same tab selected) when missing; nothing when there is no such item;
/// refused when the ID holds a tab or a splitter.
pub open spec fn ensure_tab_ref(items: Seq<(u64, ItemModel)>, tabs_id: u64, tab_id: u64) -> Result<(bool, Seq<(u64, ItemModel)>), Seq<char>> {
    match map_get(items, tabs_id) {
        Some(ItemModel::Tabs { tabs, selected, closable, hide_tab_bar }) => {
            if tabs.contains(tab_id) {
                Ok((false, items))
            } else {
                let sel = if tabs.len() > 0 { if selected == usize::MAX { selected } else { (selected + 1) as usize } } else { selected };
                Ok((true, map_insert(items, tabs_id, ItemModel::Tabs { tabs: seq![tab_id] + tabs, selected: sel, closable, hide_tab_bar })))
            }
        },
        Some(_) => Err("fixed tabs container id collides with another dock item"@),
        None => Ok((false, items)),
    }
}

fn ensure_tab_ref_in_tabs_container(items: &mut Vec<(u64, DockItem)>, tabs_id: u64, tab_id: u64) -> (r: Result<bool, &'static str>)
    requires
        keys_distinct(old(items)@),
    ensures
        keys_distinct(final(items)@),
        match ensure_tab_ref(items_model(old(items)@), tabs_id, tab_id) {
            Ok(p) => r == Ok::<bool, &'static str>(p.0) && items_model(final(items)@) == p.1,
            Err(e) => r matches Err(e2) && e2@ == e && final(items)@ == old(items)@,
        },
{
    let i = match item_at(items, tabs_id) {
        Some(i) => i,
        None => return Ok(false),
    };
    let new_item = match &items[i].1 {
        DockItem::Tabs { tabs, selected, closable, hide_tab_bar } => {
            if vec_contains(tabs, tab_id) {
                return Ok(false);
            }
            let sel = if tabs.len() > 0 { selected.saturating_add(1) } else { *selected };
            let mut t: Vec<u64> = Vec::new();
            t.push(tab_id);
            let mut j: usize = 0;
            while j < tabs.len()
                invariant
                    j <= tabs@.len(),
                    t@ == seq![tab_id] + tabs@.take(j as int),
                decreases tabs@.len() - j,
            {
                t.push(tabs[j]);
                assert(tabs@.take(j + 1) =~= tabs@.take(j as int).push(tabs@[j as int]));
                assert(t@ =~= seq![tab_id] + tabs@.take(j + 1));
                j = j + 1;
            }
            assert(tabs@.take(j as int) =~= tabs@);
            DockItem::Tabs { tabs: t, selected: sel, closable: *closable, hide_tab_bar: *hide_tab_bar }
        },
        _ => return Err("fixed tabs container id collides with another dock item"),
    };
    items_insert(items, tabs_id, new_item);
    Ok(true)
}

/// The first tab bar, in walk order, that lists the tab.
pub open spec fn find_tabs_containing(items: Seq<(u64, ItemModel)>, order: Seq<u64>, tab_id: u64) -> Option<u64>
    decreases order.len(),
{
    if order.len() == 0 {
        None
    } else {
        match find_tabs_containing(items, order.drop_last(), tab_id) {
            Some(x) => Some(x),
            None => if map_get(items, order.last()) matches Some(ItemModel::Tabs { tabs, .. }) && tabs.contains(tab_id) {
                Some(order.last())
            } else {
                None
            },
        }
    }
}

fn find_tabs_containing_exec(items: &Vec<(u64, DockItem)>, order: &Vec<u64>, tab_id: u64) -> (r: Option<u64>)
    ensures
        r == find_tabs_containing(items_model(items@), order@, tab_id),
{
    let ghost im = items_model(items@);
    let mut i: usize = 0;
    assert(order@.take(0) =~= Seq::<u64>::empty());
    while i < order.len()
        invariant
            i <= order@.len(),
            im == items_model(items@),
            find_tabs_containing(im, order@.take(i as int), tab_id) is None,
        decreases order@.len() - i,
    {
        let id = order[i];
        assert(order@.take(i + 1).drop_last() =~= order@.take(i as int));
        assert(order@.take(i + 1).last() == id);
        let found = match item_at(items, id) {
            Some(k) => match &items[k].1 {
                DockItem::Tabs { tabs, .. } => vec_contains(tabs, tab_id),
                _ => false,
            },
            None => false,
        };
        if found {
            proof { lemma_find_tabs_prefix(im, order@, i + 1, tab_id); }
            return Some(id);
        }
        i = i + 1;
    }
    assert(order@.take(i as int) =~= order@);
    None
}

proof fn lemma_find_tabs_prefix(items: Seq<(u64, ItemModel)>, order: Seq<u64>, n: int, tab_id: u64)
    requires
        0 < n <= order.len(),
        find_tabs_containing(items, order.take(n), tab_id) is Some,
    ensures
        find_tabs_containing(items, order, tab_id) == find_tabs_containing(items, order.take(n), tab_id),
    decreases order.len() - n,
{
    if n < order.len() {
        assert(order.take(n + 1).drop_last() =~= order.take(n));
        lemma_find_tabs_prefix(items, order, n + 1, tab_id);
    } else {
        assert(order.take(n) =~= order);
    }
}

/// The splitters' references to `from` turned into references to `to`, and
/// whether any was.
pub open spec fn replace_refs(items: Seq<(u64, ItemModel)>, from: u64, to: u64) -> Seq<(u64, ItemModel)> {
    items.map_values(|e: (u64, ItemModel)| match e.1 {
        ItemModel::Splitter { layout, a, b } =>
            (e.0, ItemModel::Splitter { layout, a: if a == from { to } else { a }, b: if b == from { to } else { b } }),
        _ => e,
    })
}

pub open spec fn refers_to(items: Seq<(u64, ItemModel)>, from: u64) -> bool {
    exists|i: int| 0 <= i < items.len() && splits((#[trigger] items[i]).1, from)
}

fn replace_splitter_refs(items: &mut Vec<(u64, DockItem)>, from: u64, to: u64) -> (r: bool)
    requires
        keys_distinct(old(items)@),
    ensures
        keys_distinct(final(items)@),
        items_model(final(items)@) == replace_refs(items_model(old(items)@), from, to),
        r == refers_to(items_model(old(items)@), from),
{
    let ghost im0 = items_model(items@);
    let ghost n = items@.len();
    let mut replaced = false;
    let mut i: usize = 0;
    while i < items.len()
        invariant
            i <= items@.len(),
            n == items@.len(),
            im0.len() == n,
            forall|j: int| i <= j < n ==> (#[trigger] items_model(items@)[j]) == im0[j],
            forall|j: int| 0 <= j < i ==> (#[trigger] items_model(items@)[j]) == replace_refs(im0, from, to)[j],
            replaced == exists|j: int| 0 <= j < i && splits((#[trigger] im0[j]).1, from),
            keys_distinct(items@),
        decreases n - i,
    {
        let ghost before = items@;
        assert(items_model(before)[i as int] == im0[i as int]);
        let (k, item) = items.remove(i);
        let new_item = match item {
            DockItem::Splitter { layout, a, b } => {
                if a == from || b == from {
                    replaced = true;
                }
                DockItem::Splitter { layout, a: if a == from { to } else { a }, b: if b == from { to } else { b } }
            },
            other => other,
        };
        items.insert(i, (k, new_item));
        assert(items@ == before.update(i as int, (k, new_item)));
        proof { lemma_items_model_update(before, i as int, k, new_item); }
        assert(keys_distinct(items@)) by {
            assert forall|a: int, b: int| 0 <= a < b < items@.len() implies (#[trigger] items@[a]).0 != (#[trigger] items@[b]).0 by {
                assert(items@[a].0 == before[a].0 && items@[b].0 == before[b].0);
            }
        }
        i = i + 1;
    }
    assert(items_model(items@) =~= replace_refs(im0, from, to));
    replaced
}

// ---------------------------------------------------------------------------
// Reshaping the tree
// ---------------------------------------------------------------------------

/// The default tab bar of the rooms sidebar: its one tab, tab bar hidden.
pub open spec fn sidebar_tabs_item(sidebar_tab: u64) -> ItemModel {
    ItemModel::Tabs { tabs: seq![sidebar_tab], selected: 0, closable: true, hide_tab_bar: true }
}

/// When the root itself is the main tab bar: it moves to `main_tabs`, a
/// sidebar tab bar is added, and the root becomes the default splitter
/// between them.
pub open spec fn promote_root(items: Seq<(u64, ItemModel)>, root: u64, main_tabs: u64, sidebar_tabs: u64, sidebar_tab: u64)
    -> Result<Seq<(u64, ItemModel)>, Seq<char>>
{
    match map_get(items, root) {
        None => Err("root dock item is missing"@),
        Some(t) => if !(t is Tabs) {
            Err("root dock item is not a tabs container"@)
        } else {
            let i1 = map_remove(items, root);
            let i2 = map_insert(i1, main_tabs, t);
            let i3 = map_insert(i2, sidebar_tabs, sidebar_tabs_item(sidebar_tab));
            Ok(map_insert(i3, root, ItemModel::Splitter { layout: SplitLayout::SidebarDefault, a: sidebar_tabs, b: main_tabs }))
        },
    }
}

fn promote_root_tabs_to_default_split(items: &mut Vec<(u64, DockItem)>, root: u64, main_tabs: u64, sidebar_tabs: u64, sidebar_tab: u64)
    -> (r: Result<(), &'static str>)
    requires
        keys_distinct(old(items)@),
    ensures
        keys_distinct(final(items)@),
        match promote_root(items_model(old(items)@), root, main_tabs, sidebar_tabs, sidebar_tab) {
            Ok(m) => r is Ok && items_model(final(items)@) == m,
            Err(e) => r matches Err(e2) && e2@ == e,
        },
{
    let root_tabs = match items_remove(items, root) {
        Some(t) => t,
        None => return Err("root dock item is missing"),
    };
    let is_tabs = match &root_tabs {
        DockItem::Tabs { .. } => true,
        _ => false,
    };
    if !is_tabs {
        items_insert(items, root, root_tabs);
        return Err("root dock item is not a tabs container");
    }
    items_insert(items, main_tabs, root_tabs);
    let mut t: Vec<u64> = Vec::new();
    t.push(sidebar_tab);
    let side = DockItem::Tabs { tabs: t, selected: 0, closable: true, hide_tab_bar: true };
    assert(item_model(side) == sidebar_tabs_item(sidebar_tab)) by {
        assert(t@ =~= seq![sidebar_tab]);
    }
    items_insert(items, sidebar_tabs, side);
    items_insert(items, root, DockItem::Splitter { layout: SplitLayout::SidebarDefault, a: sidebar_tabs, b: main_tabs });
    Ok(())
}

/// A splitter child renamed: `current` becomes `dsl`, and, when `swap`, `dsl` becomes `current`.
pub open spec fn remap_id(id: u64, current: u64, dsl: u64, swap: bool) -> u64 {
    if id == current { dsl } else if swap && id == dsl { current } else { id }
}

pub open spec fn remap_splitters(items: Seq<(u64, ItemModel)>, current: u64, dsl: u64, swap: bool) -> Seq<(u64, ItemModel)> {
    items.map_values(|e: (u64, ItemModel)| match e.1 {
        ItemModel::Splitter { layout, a, b } =>
            (e.0, ItemModel::Splitter { layout, a: remap_id(a, current, dsl, swap), b: remap_id(b, current, dsl, swap) }),
        _ => e,
    })
}

/// The main tab bar gets the ID `dsl`. When `dsl` held a reachable container,
/// the two swap IDs; the splitters follow.
pub open spec fn normalize_main(items: Seq<(u64, ItemModel)>, root: u64, current: u64, dsl: u64, reachable: Seq<u64>)
    -> Result<Seq<(u64, ItemModel)>, Seq<char>>
{
    if current == root {
        Err("main-tabs container is root"@)
    } else {
        match map_get(items, current) {
            None => Err("main-tabs container is missing"@),
            Some(cur) => {
                let i1 = map_remove(items, current);
                let existing = map_get(i1, dsl);
                let i2 = map_remove(i1, dsl);
                let swap = existing is Some && reachable.contains(dsl) && !(existing->0 is Tab);
                let i3 = map_insert(i2, dsl, cur);
                let i4 = if swap { map_insert(i3, current, existing->0) } else { i3 };
                Ok(remap_splitters(i4, current, dsl, swap))
            },
        }
    }
}

fn remap_splitters_exec(items: &mut Vec<(u64, DockItem)>, current: u64, dsl: u64, swap: bool)
    requires
        keys_distinct(old(items)@),
    ensures
        keys_distinct(final(items)@),
        items_model(final(items)@) == remap_splitters(items_model(old(items)@), current, dsl, swap),
{
    let ghost im0 = items_model(items@);
    let ghost n = items@.len();
    let mut i: usize = 0;
    while i < items.len()
        invariant
            i <= items@.len(),
            n == items@.len(),
            im0.len() == n,
            forall|j: int| i <= j < n ==> (#[trigger] items_model(items@)[j]) == im0[j],
            forall|j: int| 0 <= j < i ==> (#[trigger] items_model(items@)[j]) == remap_splitters(im0, current, dsl, swap)[j],
            keys_distinct(items@),
        decreases n - i,
    {
        let ghost before = items@;
        assert(items_model(before)[i as int] == im0[i as int]);
        let (k, item) = items.remove(i);
        let new_item = match item {
            DockItem::Splitter { layout, a, b } => {
                let a2 = if a == current { dsl } else if swap && a == dsl { current } else { a };
                let b2 = if b == current { dsl } else if swap && b == dsl { current } else { b };
                DockItem::Splitter { layout, a: a2, b: b2 }
            },
            other => other,
        };
        items.insert(i, (k, new_item));
        assert(items@ == before.update(i as int, (k, new_item)));
        proof { lemma_items_model_update(before, i as int, k, new_item); }
        assert(keys_distinct(items@)) by {
            assert forall|a: int, b: int| 0 <= a < b < items@.len() implies (#[trigger] items@[a]).0 != (#[trigger] items@[b]).0 by {
                assert(items@[a].0 == before[a].0 && items@[b].0 == before[b].0);
            }
        }
        i = i + 1;
    }
    assert(items_model(items@) =~= remap_splitters(im0, current, dsl, swap));
}

fn normalize_main_tabs_id(items: &mut Vec<(u64, DockItem)>, root: u64, current: u64, dsl: u64, reachable: &Vec<u64>)
    -> (r: Result<(), &'static str>)
    requires
        keys_distinct(old(items)@),
    ensures
        keys_distinct(final(items)@),
        match normalize_main(items_model(old(items)@), root, current, dsl, reachable@) {
            Ok(m) => r is Ok && items_model(final(items)@) == m,
            Err(e) => r matches Err(e2) && e2@ == e,
        },
{
    if current == root {
        return Err("main-tabs container is root");
    }
    let cur = match items_remove(items, current) {
        Some(c) => c,
        None => return Err("main-tabs container is missing"),
    };
    let existing = items_remove(items, dsl);
    let swap = match &existing {
        Some(item) => vec_contains(reachable, dsl) && match item {
            DockItem::Tab { .. } => false,
            _ => true,
        },
        None => false,
    };
    items_insert(items, dsl, cur);
    if swap {
        match existing {
            Some(item) => items_insert(items, current, item),
            None => {},
        }
    }
    remap_splitters_exec(items, current, dsl, swap);
    Ok(())
}

/// The selected tab once a tab bar holds `len` tabs: kept when it still
/// exists, else the last one (0 when there is none).
pub open spec fn clamp_selected(selected: usize, len: nat) -> usize {
    if len == 0 { 0 } else if selected >= len { (len - 1) as usize } else { selected }
}

/// The tabs of a bar that are kept: those that are tab items and were not
/// listed before (in `seen`); and `seen` with them added.
pub open spec fn keep_tabs(items: Seq<(u64, ItemModel)>, tabs: Seq<u64>, seen: Seq<u64>) -> (Seq<u64>, Seq<u64>)
    decreases tabs.len(),
{
    if tabs.len() == 0 {
        (Seq::empty(), seen)
    } else {
        let p = keep_tabs(items, tabs.drop_last(), seen);
        let t = tabs.last();
        if is_tab(map_get(items, t)) && !p.1.contains(t) { (p.0.push(t), p.1.push(t)) } else { p }
    }
}

/// Dedupe in walk order: every tab bar keeps only the tabs that exist and
/// that no earlier bar lists, and its selection is clamped. Returns whether
/// anything changed, the items, and the tabs listed.
pub open spec fn dedupe_tabs(items0: Seq<(u64, ItemModel)>, items: Seq<(u64, ItemModel)>, order: Seq<u64>)
    -> (bool, Seq<(u64, ItemModel)>, Seq<u64>)
    decreases order.len(),
{
    if order.len() == 0 {
        (false, items, Seq::empty())
    } else {
        let p = dedupe_tabs(items0, items, order.drop_last());
        match map_get(p.1, order.last()) {
            Some(ItemModel::Tabs { tabs, selected, closable, hide_tab_bar }) => {
                let k = keep_tabs(items0, tabs, p.2);
                let sel = clamp_selected(selected, k.0.len());
                let changed = k.0.len() != tabs.len() || sel != selected;
                (p.0 || changed, map_insert(p.1, order.last(), ItemModel::Tabs { tabs: k.0, selected: sel, closable, hide_tab_bar }), k.1)
            },
            _ => p,
        }
    }
}

proof fn lemma_keep_tabs_seen(items: Seq<(u64, ItemModel)>, tabs: Seq<u64>, seen: Seq<u64>)
    ensures
        keep_tabs(items, tabs, seen).1 == seen + keep_tabs(items, tabs, seen).0,
        keep_tabs(items, tabs, seen).0.len() <= tabs.len(),
    decreases tabs.len(),
{
    if tabs.len() > 0 {
        lemma_keep_tabs_seen(items, tabs.drop_last(), seen);
        let p = keep_tabs(items, tabs.drop_last(), seen);
        assert(p.1.push(tabs.last()) =~= seen + p.0.push(tabs.last()));
    }
}

fn remove_bad_and_duplicate_tab_refs(items: &mut Vec<(u64, DockItem)>, order: &Vec<u64>) -> (r: (bool, Vec<u64>))
    requires
        keys_distinct(old(items)@),
    ensures
        keys_distinct(final(items)@),
        (r.0, items_model(final(items)@), r.1@) == dedupe_tabs(items_model(old(items)@), items_model(old(items)@), order@),
{
    let ghost im0 = items_model(items@);
    let mut repaired = false;
    let mut seen: Vec<u64> = Vec::new();
    let mut i: usize = 0;
    assert(order@.take(0) =~= Seq::<u64>::empty());
    while i < order.len()
        invariant
            i <= order@.len(),
            im0 == items_model(old(items)@),
            keys_distinct(items@),
            (repaired, items_model(items@), seen@) == dedupe_tabs(im0, im0, order@.take(i as int)),
            forall|k: u64| #[trigger] is_tab(map_get(items_model(items@), k)) == is_tab(map_get(im0, k)),
        decreases order@.len() - i,
    {
        let id = order[i];
        assert(order@.take(i + 1).drop_last() =~= order@.take(i as int));
        assert(order@.take(i + 1).last() == id);
        let ghost cur = items_model(items@);
        let k = match item_at(items, id) {
            Some(k) => k,
            None => {
                i = i + 1;
                continue;
            },
        };
        let new_item = match &items[k].1 {
            DockItem::Tabs { tabs, selected, closable, hide_tab_bar } => {
                let mut kept: Vec<u64> = Vec::new();
                let ghost seen0 = seen@;
                let mut j: usize = 0;
                assert(tabs@.take(0) =~= Seq::<u64>::empty());
                while j < tabs.len()
                    invariant
                        j <= tabs@.len(),
                        forall|q: u64| #[trigger] is_tab(map_get(items_model(items@), q)) == is_tab(map_get(im0, q)),
                        (kept@, seen@) == keep_tabs(im0, tabs@.take(j as int), seen0),
                    decreases tabs@.len() - j,
                {
                    let t = tabs[j];
                    assert(tabs@.take(j + 1).drop_last() =~= tabs@.take(j as int));
                    assert(tabs@.take(j + 1).last() == t);
                    let valid = match item_at(items, t) {
                        Some(q) => match &items[q].1 {
                            DockItem::Tab { .. } => true,
                            _ => false,
                        },
                        None => false,
                    };
                    assert(is_tab(map_get(items_model(items@), t)) == is_tab(map_get(im0, t)));
                    assert(valid == is_tab(map_get(im0, t)));
                    if valid && !vec_contains(&seen, t) {
                        kept.push(t);
                        seen.push(t);
                    }
                    j = j + 1;
                }
                assert(tabs@.take(j as int) =~= tabs@);
                proof { lemma_keep_tabs_seen(im0, tabs@, seen0); }
                let sel = if kept.len() == 0 { 0 } else if *selected >= kept.len() { kept.len() - 1 } else { *selected };
                if kept.len() != tabs.len() || sel != *selected {
                    repaired = true;
                }
                Some(DockItem::Tabs { tabs: kept, selected: sel, closable: *closable, hide_tab_bar: *hide_tab_bar })
            },
            _ => None,
        };
        assert(new_item is Some ==> items@[k as int].1 is Tabs);
        assert(map_get(cur, id) == Some(item_model(items@[k as int].1)));
        match new_item {
            Some(item) => {
                let ghost before = items_model(items@);
                assert(!is_tab(map_get(before, id)));
                proof { lemma_items_model_keys(items@, id); }
                items_insert(items, id, item);
                proof {
                    assert forall|q: u64| #[trigger] is_tab(map_get(items_model(items@), q)) == is_tab(map_get(im0, q)) by {
                        lemma_map_insert_get(before, id, item_model(item), q);
                    }
                }
            },
            None => {},
        }
        i = i + 1;
    }
    assert(order@.take(i as int) =~= order@);
    (repaired, seen)
}

proof fn lemma_map_insert_get<V>(m: Seq<(u64, V)>, k: u64, v: V, q: u64)
    requires
        keys_distinct(m),
    ensures
        map_get(map_insert(m, k, v), q) == if q == k { Some(v) } else { map_get(m, q) },
{
    lemma_key_index(m, k);
    lemma_key_index(m, q);
    lemma_insert_keeps_distinct(m, k, v);
    let m2 = map_insert(m, k, v);
    lemma_key_index(m2, q);
    let ik = key_index(m, k);
    if q == k {
        if ik < 0 {
            assert(m2[m.len() as int] == (k, v));
            assert(key_index(m2, q) == m.len());
        } else {
            assert(m2[ik] == (k, v));
            assert(key_index(m2, q) == ik);
        }
    } else {
        let i = key_index(m, q);
        if i >= 0 {
            assert(m2[i] == m[i]);
            assert(key_index(m2, q) == i);
        } else {
            assert forall|x: int| 0 <= x < m2.len() implies (#[trigger] m2[x]).0 != q by {
                if ik >= 0 {
                    if x != ik { assert(m2[x] == m[x]); }
                } else if x < m.len() {
                    assert(m2[x] == m[x]);
                }
            }
            assert(key_index(m2, q) < 0);
        }
    }
}

// ---------------------------------------------------------------------------
// Rooms open in the dock
// ---------------------------------------------------------------------------

/// A room (or space, invitation or thread) open in a tab.
#[derive(Debug)]
pub struct SelectedRoom {
    /// The ID of its tab.
    pub tab_id: u64,
    /// What identifies it: its kind and IDs.
    pub key: String,
    pub display_name: String,
    /// The kind of screen its tab shows.
    pub dock_kind: u64,
}

/// A selected room as plain values.
pub struct RoomModel {
    pub tab_id: u64,
    pub key: Seq<char>,
    pub display_name: Seq<char>,
    pub dock_kind: u64,
}

pub open spec fn room_model(r: SelectedRoom) -> RoomModel {
    RoomModel { tab_id: r.tab_id, key: r.key@, display_name: r.display_name@, dock_kind: r.dock_kind }
}

pub open spec fn rooms_model(v: Seq<SelectedRoom>) -> Seq<RoomModel> {
    v.map_values(|r: SelectedRoom| room_model(r))
}

pub open spec fn open_rooms_model(v: Seq<(u64, SelectedRoom)>) -> Seq<(u64, RoomModel)> {
    v.map_values(|e: (u64, SelectedRoom)| (e.0, room_model(e.1)))
}

impl SelectedRoom {
    /// A field-by-field copy.
    pub fn duplicate(&self) -> (r: SelectedRoom)
        ensures
            room_model(r) == room_model(*self),
    {
        SelectedRoom { tab_id: self.tab_id, key: self.key.clone(), display_name: self.display_name.clone(), dock_kind: self.dock_kind }
    }

    /// Whether two selected rooms are the same.
    pub fn same_as(&self, other: &SelectedRoom) -> (r: bool)
        ensures
            r == (room_model(*self) == room_model(*other)),
    {
        self.tab_id == other.tab_id && self.key == other.key && self.display_name == other.display_name
            && self.dock_kind == other.dock_kind
    }
}

/// The entries of `s`, each once, in order of first appearance.
pub open spec fn dedup_ids(s: Seq<u64>) -> Seq<u64>
    decreases s.len(),
{
    if s.len() == 0 {
        Seq::empty()
    } else {
        let p = dedup_ids(s.drop_last());
        if p.contains(s.last()) { p } else { p.push(s.last()) }
    }
}

pub open spec fn room_tab_ids(rs: Seq<RoomModel>) -> Seq<u64> {
    rs.map_values(|r: RoomModel| r.tab_id)
}

pub open spec fn keys_of<V>(m: Seq<(u64, V)>) -> Seq<u64> {
    m.map_values(|e: (u64, V)| e.0)
}

/// The entries of `s` that are not in `excl`, in order.
pub open spec fn not_in(s: Seq<u64>, excl: Seq<u64>) -> Seq<u64>
    decreases s.len(),
{
    if s.len() == 0 {
        Seq::empty()
    } else {
        let p = not_in(s.drop_last(), excl);
        if excl.contains(s.last()) { p } else { p.push(s.last()) }
    }
}

/// `x` inserted into the ascending `t`, after every entry not above it.
pub open spec fn insert_ascending(t: Seq<u64>, x: u64) -> Seq<u64>
    decreases t.len(),
{
    if t.len() == 0 {
        seq![x]
    } else if x < t.last() {
        insert_ascending(t.drop_last(), x).push(t.last())
    } else {
        t.push(x)
    }
}

/// `s` sorted in ascending order (stable).
pub open spec fn sort_ascending(s: Seq<u64>) -> Seq<u64>
    decreases s.len(),
{
    if s.len() == 0 { Seq::empty() } else { insert_ascending(sort_ascending(s.drop_last()), s.last()) }
}

/// The entries of `s` that are tab items.
pub open spec fn tabs_only(items: Seq<(u64, ItemModel)>, s: Seq<u64>) -> Seq<u64>
    decreases s.len(),
{
    if s.len() == 0 {
        Seq::empty()
    } else {
        let p = tabs_only(items, s.drop_last());
        if is_tab(map_get(items, s.last())) { p.push(s.last()) } else { p }
    }
}

/// The tabs of open rooms that may need rescuing: those of the room order
/// (each once), then the other open rooms' tabs in ascending order; only
/// those that are tab items.
pub open spec fn rescue_candidates(items: Seq<(u64, ItemModel)>, room_order: Seq<RoomModel>, open_rooms: Seq<(u64, RoomModel)>) -> Seq<u64> {
    let c1 = dedup_ids(room_tab_ids(room_order));
    tabs_only(items, c1 + sort_ascending(not_in(keys_of(open_rooms), c1)))
}

/// The candidates appended to a tab bar, unless already listed somewhere.
pub open spec fn append_tabs(tabs: Seq<u64>, referenced: Seq<u64>, cands: Seq<u64>) -> (Seq<u64>, Seq<u64>, bool)
    decreases cands.len(),
{
    if cands.len() == 0 {
        (tabs, referenced, false)
    } else {
        let p = append_tabs(tabs, referenced, cands.drop_last());
        let c = cands.last();
        if p.1.contains(c) { p } else { (p.0.push(c), p.1.push(c), true) }
    }
}

/// The open rooms whose tabs no tab bar lists are appended to the main tab bar.
pub open spec fn rescue_open_rooms(items: Seq<(u64, ItemModel)>, main_tabs: u64, referenced: Seq<u64>,
    room_order: Seq<RoomModel>, open_rooms: Seq<(u64, RoomModel)>) -> (bool, Seq<(u64, ItemModel)>, Seq<u64>)
{
    match map_get(items, main_tabs) {
        Some(ItemModel::Tabs { tabs, selected, closable, hide_tab_bar }) => {
            let a = append_tabs(tabs, referenced, rescue_candidates(items, room_order, open_rooms));
            let fix = selected >= a.0.len() && a.0.len() > 0;
            let sel = if fix { (a.0.len() - 1) as usize } else { selected };
            (a.2 || fix, map_insert(items, main_tabs, ItemModel::Tabs { tabs: a.0, selected: sel, closable, hide_tab_bar }), a.1)
        },
        _ => (false, items, referenced),
    }
}

fn sort_ascending_exec(s: &Vec<u64>) -> (r: Vec<u64>)
    ensures
        r@ == sort_ascending(s@),
{
    let mut r: Vec<u64> = Vec::new();
    let mut i: usize = 0;
    assert(s@.take(0) =~= Seq::<u64>::empty());
    while i < s.len()
        invariant
            i <= s@.len(),
            r@ == sort_ascending(s@.take(i as int)),
        decreases s@.len() - i,
    {
        let x = s[i];
        assert(s@.take(i + 1).drop_last() =~= s@.take(i as int));
        assert(s@.take(i + 1).last() == x);
        let ghost t = r@;
        let mut p = r.len();
        assert(t.take(p as int) =~= t);
        while p > 0 && x < r[p - 1]
            invariant
                p <= t.len(),
                r@ == t,
                insert_ascending(t, x) == insert_ascending(t.take(p as int), x) + t.skip(p as int),
            decreases p,
        {
            assert(t.take(p as int).drop_last() =~= t.take(p - 1));
            assert(t.take(p as int).last() == t[p - 1]);
            assert(t.skip(p - 1) =~= seq![t[p - 1]] + t.skip(p as int));
            assert(insert_ascending(t.take(p - 1), x).push(t[p - 1]) + t.skip(p as int)
                =~= insert_ascending(t.take(p - 1), x) + t.skip(p - 1));
            p = p - 1;
        }
        if p > 0 {
            assert(t.take(p as int).last() == t[p - 1]);
            assert(insert_ascending(t.take(p as int), x) == t.take(p as int).push(x));
        } else {
            assert(t.take(0) =~= Seq::<u64>::empty());
        }
        r.insert(p, x);
        assert(r@ =~= t.take(p as int).push(x) + t.skip(p as int));
        i = i + 1;
    }
    assert(s@.take(i as int) =~= s@);
    r
}

fn rescue_candidates_exec(items: &Vec<(u64, DockItem)>, room_order: &Vec<SelectedRoom>, open_rooms: &Vec<(u64, SelectedRoom)>) -> (r: Vec<u64>)
    ensures
        r@ == rescue_candidates(items_model(items@), rooms_model(room_order@), open_rooms_model(open_rooms@)),
{
    let ghost ro = room_tab_ids(rooms_model(room_order@));
    let mut c1: Vec<u64> = Vec::new();
    let mut i: usize = 0;
    assert(ro.take(0) =~= Seq::<u64>::empty());
    while i < room_order.len()
        invariant
            i <= room_order@.len(),
            ro == room_tab_ids(rooms_model(room_order@)),
            c1@ == dedup_ids(ro.take(i as int)),
        decreases room_order@.len() - i,
    {
        let t = room_order[i].tab_id;
        assert(ro.take(i + 1).drop_last() =~= ro.take(i as int));
        assert(ro.take(i + 1).last() == t);
        if !vec_contains(&c1, t) {
            c1.push(t);
        }
        i = i + 1;
    }
    assert(ro.take(i as int) =~= ro);
    let ghost ks = keys_of(open_rooms_model(open_rooms@));
    let mut unordered: Vec<u64> = Vec::new();
    let mut j: usize = 0;
    assert(ks.take(0) =~= Seq::<u64>::empty());
    while j < open_rooms.len()
        invariant
            j <= open_rooms@.len(),
            ks == keys_of(open_rooms_model(open_rooms@)),
            unordered@ == not_in(ks.take(j as int), c1@),
        decreases open_rooms@.len() - j,
    {
        let t = open_rooms[j].0;
        assert(ks.take(j + 1).drop_last() =~= ks.take(j as int));
        assert(ks.take(j + 1).last() == t);
        if !vec_contains(&c1, t) {
            unordered.push(t);
        }
        j = j + 1;
    }
    assert(ks.take(j as int) =~= ks);
    let sorted = sort_ascending_exec(&unordered);
    let ghost all = c1@ + sorted@;
    let ghost im = items_model(items@);
    let mut r: Vec<u64> = Vec::new();
    let mut k: usize = 0;
    assert(all.take(0) =~= Seq::<u64>::empty());
    while k < c1.len()
        invariant
            k <= c1@.len(),
            all == c1@ + sorted@,
            im == items_model(items@),
            r@ == tabs_only(im, all.take(k as int)),
        decreases c1@.len() - k,
    {
        let x = c1[k];
        assert(x == all[k as int]);
        assert(all.take(k + 1).drop_last() =~= all.take(k as int));
        assert(all.take(k + 1).last() == x);
        let is_tab_item = match item_at(items, x) {
            Some(q) => match &items[q].1 {
                DockItem::Tab { .. } => true,
                _ => false,
            },
            None => false,
        };
        if is_tab_item {
            r.push(x);
        }
        k = k + 1;
    }
    let mut m: usize = 0;
    while m < sorted.len()
        invariant
            m <= sorted@.len(),
            all == c1@ + sorted@,
            im == items_model(items@),
            r@ == tabs_only(im, all.take(c1@.len() + m)),
        decreases sorted@.len() - m,
    {
        let x = sorted[m];
        assert(x == all[c1@.len() + m]);
        assert(all.take(c1@.len() + m + 1).drop_last() =~= all.take(c1@.len() + m));
        assert(all.take(c1@.len() + m + 1).last() == x);
        let is_tab_item = match item_at(items, x) {
            Some(q) => match &items[q].1 {
                DockItem::Tab { .. } => true,
                _ => false,
            },
            None => false,
        };
        if is_tab_item {
            r.push(x);
        }
        m = m + 1;
    }
    let ghost k = c1@.len() + m;
    assert(all.take(k as int) =~= all);
    r
}

fn append_unreferenced_open_rooms_to_main_tabs(items: &mut Vec<(u64, DockItem)>, main_tabs: u64, referenced: &mut Vec<u64>,
    room_order: &Vec<SelectedRoom>, open_rooms: &Vec<(u64, SelectedRoom)>) -> (r: bool)
    requires
        keys_distinct(old(items)@),
    ensures
        keys_distinct(final(items)@),
        (r, items_model(final(items)@), final(referenced)@) == rescue_open_rooms(items_model(old(items)@), main_tabs,
            old(referenced)@, rooms_model(room_order@), open_rooms_model(open_rooms@)),
{
    let cands = rescue_candidates_exec(items, room_order, open_rooms);
    let k = match item_at(items, main_tabs) {
        Some(k) => k,
        None => return false,
    };
    let new_item = match &items[k].1 {
        DockItem::Tabs { tabs, selected, closable, hide_tab_bar } => {
            let mut t = copy_tabs(tabs);
            let mut grew = false;
            let ghost tabs0 = tabs@;
            let ghost ref0 = referenced@;
            let mut i: usize = 0;
            assert(cands@.take(0) =~= Seq::<u64>::empty());
            while i < cands.len()
                invariant
                    i <= cands@.len(),
                    (t@, referenced@, grew) == append_tabs(tabs0, ref0, cands@.take(i as int)),
                decreases cands@.len() - i,
            {
                let c = cands[i];
                assert(cands@.take(i + 1).drop_last() =~= cands@.take(i as int));
                assert(cands@.take(i + 1).last() == c);
                if !vec_contains(referenced, c) {
                    t.push(c);
                    referenced.push(c);
                    grew = true;
                }
                i = i + 1;
            }
            assert(cands@.take(i as int) =~= cands@);
            let fix = *selected >= t.len() && t.len() > 0;
            let sel = if fix { t.len() - 1 } else { *selected };
            Some((DockItem::Tabs { tabs: t, selected: sel, closable: *closable, hide_tab_bar: *hide_tab_bar }, grew || fix))
        },
        _ => None,
    };
    match new_item {
        Some((item, changed)) => {
            items_insert(items, main_tabs, item);
            changed
        },
        None => false,
    }
}

fn copy_tabs(tabs: &Vec<u64>) -> (r: Vec<u64>)
    ensures
        r@ == tabs@,
{
    let mut t: Vec<u64> = Vec::new();
    let mut i: usize = 0;
    while i < tabs.len()
        invariant
            i <= tabs@.len(),
            t@ == tabs@.take(i as int),
        decreases tabs@.len() - i,
    {
        t.push(tabs[i]);
        assert(tabs@.take(i + 1) =~= tabs@.take(i as int).push(tabs@[i as int]));
        i = i + 1;
    }
    assert(tabs@.take(i as int) =~= tabs@);
    t
}

// ---------------------------------------------------------------------------
// Collapsing empty tab bars
// ---------------------------------------------------------------------------

/// The first splitter (in the items' order) that has `id` as a child, and
/// that splitter's other child.
pub open spec fn parent_of(items: Seq<(u64, ItemModel)>, id: u64) -> Option<(u64, u64)>
    decreases items.len(),
{
    if items.len() == 0 {
        None
    } else {
        match parent_of(items.drop_last(), id) {
            Some(x) => Some(x),
            None => match items.last().1 {
                ItemModel::Splitter { a, b, .. } =>
                    if a == id { Some((items.last().0, b)) } else if b == id { Some((items.last().0, a)) } else { None },
                _ => None,
            },
        }
    }
}

/// An empty tab bar taken out of the tree: its parent splitter is replaced
/// by the other child (the root takes that child's content); with no parent,
/// the bar is just dropped.
pub open spec fn collapse(items: Seq<(u64, ItemModel)>, tabs_id: u64, main_tabs: u64, sidebar_tabs: u64, root: u64)
    -> Result<Seq<(u64, ItemModel)>, Seq<char>>
{
    match parent_of(items, tabs_id) {
        None => Ok(map_remove(items, tabs_id)),
        Some(ps) => {
            let p = ps.0;
            let sib = ps.1;
            if p == root {
                if sib == main_tabs || sib == sidebar_tabs {
                    Err("empty pane collapse would remove a required dock container id"@)
                } else {
                    match map_get(items, sib) {
                        None => Err("empty pane sibling is missing"@),
                        Some(c) => Ok(map_remove(map_insert(map_remove(items, sib), root, c), tabs_id)),
                    }
                }
            } else if map_get(items, sib) is None {
                Err("empty pane sibling is missing"@)
            } else if !refers_to(items, p) {
                Err("empty pane parent splitter is detached"@)
            } else {
                Ok(map_remove(map_remove(replace_refs(items, p, sib), p), tabs_id))
            }
        },
    }
}

proof fn lemma_parent_of(items: Seq<(u64, ItemModel)>, id: u64)
    ensures
        parent_of(items, id) matches Some(ps) ==> exists|i: int| 0 <= i < items.len() && (#[trigger] items[i]).0 == ps.0
            && items[i].1 is Splitter,
    decreases items.len(),
{
    if items.len() > 0 {
        lemma_parent_of(items.drop_last(), id);
        if parent_of(items.drop_last(), id) is Some {
            let ps = parent_of(items.drop_last(), id)->0;
            let i = choose|i: int| 0 <= i < items.drop_last().len() && (#[trigger] items.drop_last()[i]).0 == ps.0
                && items.drop_last()[i].1 is Splitter;
            assert(items[i] == items.drop_last()[i]);
        } else if parent_of(items, id) is Some {
            assert(items[items.len() - 1] == items.last());
        }
    }
}

proof fn lemma_map_len<V>(m: Seq<(u64, V)>, k: u64, v: V)
    requires
        keys_distinct(m),
    ensures
        map_remove(m, k).len() == if key_index(m, k) >= 0 { m.len() - 1 } else { m.len() as int },
        map_insert(m, k, v).len() == if key_index(m, k) >= 0 { m.len() as int } else { m.len() + 1int },
{
    lemma_key_index(m, k);
}

proof fn lemma_map_remove_get<V>(m: Seq<(u64, V)>, k: u64, q: u64)
    requires
        keys_distinct(m),
    ensures
        map_get(map_remove(m, k), q) == if q == k { None } else { map_get(m, q) },
        key_index(map_remove(m, k), q) >= 0 <==> (q != k && key_index(m, q) >= 0),
{
    lemma_key_index(m, k);
    lemma_key_index(m, q);
    lemma_remove_keeps_distinct(m, k);
    let r = map_remove(m, k);
    lemma_key_index(r, q);
    let ik = key_index(m, k);
    let iq = key_index(m, q);
    if ik >= 0 {
        if q != k && iq >= 0 {
            let x = if iq < ik { iq } else { iq - 1 };
            assert(r[x] == m[iq]);
            assert(key_index(r, q) == x);
        } else if q != k {
            assert forall|x: int| 0 <= x < r.len() implies (#[trigger] r[x]).0 != q by {
                let x2 = if x < ik { x } else { x + 1 };
                assert(r[x] == m[x2]);
            }
        }
    }
}

proof fn lemma_present_after_insert<V>(m: Seq<(u64, V)>, k: u64, v: V, q: u64)
    requires
        keys_distinct(m),
    ensures
        key_index(map_insert(m, k, v), q) >= 0 <==> (q == k || key_index(m, q) >= 0),
        keys_distinct(map_insert(m, k, v)),
{
    lemma_map_insert_get(m, k, v, q);
    lemma_insert_keeps_distinct(m, k, v);
}

/// Collapsing takes at least one item out.
pub proof fn lemma_collapse_shrinks(items: Seq<(u64, ItemModel)>, tabs_id: u64, main_tabs: u64, sidebar_tabs: u64, root: u64)
    requires
        keys_distinct(items),
        map_get(items, tabs_id) matches Some(ItemModel::Tabs { .. }),
        collapse(items, tabs_id, main_tabs, sidebar_tabs, root) is Ok,
    ensures
        collapse(items, tabs_id, main_tabs, sidebar_tabs, root)->Ok_0.len() < items.len(),
        keys_distinct(collapse(items, tabs_id, main_tabs, sidebar_tabs, root)->Ok_0),
{
    lemma_key_index(items, tabs_id);
    lemma_map_len(items, tabs_id, ItemModel::Tab { name: Seq::empty(), template: 0, kind: 0 });
    lemma_remove_keeps_distinct(items, tabs_id);
    match parent_of(items, tabs_id) {
        None => {},
        Some(ps) => {
            let p = ps.0;
            let sib = ps.1;
            lemma_parent_of(items, tabs_id);
            let ip = choose|i: int| 0 <= i < items.len() && (#[trigger] items[i]).0 == p && items[i].1 is Splitter;
            lemma_key_index(items, p);
            assert(key_index(items, p) == ip);
            assert(p != tabs_id);
            if p == root {
                let c = map_get(items, sib)->0;
                let i1 = map_remove(items, sib);
                lemma_key_index(items, sib);
                lemma_map_len(items, sib, c);
                lemma_remove_keeps_distinct(items, sib);
                lemma_map_remove_get(items, sib, root);
                lemma_map_remove_get(items, sib, tabs_id);
                let i2 = map_insert(i1, root, c);
                lemma_map_len(i1, root, c);
                lemma_present_after_insert(i1, root, c, tabs_id);
                lemma_map_len(i2, tabs_id, c);
                lemma_remove_keeps_distinct(i2, tabs_id);
            } else {
                let i1 = replace_refs(items, p, sib);
                assert(i1.len() == items.len());
                assert forall|a: int, b: int| 0 <= a < b < i1.len() implies (#[trigger] i1[a]).0 != (#[trigger] i1[b]).0 by {
                    assert(i1[a].0 == items[a].0 && i1[b].0 == items[b].0);
                }
                assert(keys_i_same(items, i1)) by {
                    assert forall|x: int| 0 <= x < items.len() implies (#[trigger] i1[x]).0 == items[x].0 by {}
                }
                lemma_same_keys_index(items, i1, p);
                lemma_same_keys_index(items, i1, tabs_id);
                lemma_map_len(i1, p, ItemModel::Tab { name: Seq::empty(), template: 0, kind: 0 });
                lemma_remove_keeps_distinct(i1, p);
                lemma_map_remove_get(i1, p, tabs_id);
                let i2 = map_remove(i1, p);
                lemma_map_len(i2, tabs_id, ItemModel::Tab { name: Seq::empty(), template: 0, kind: 0 });
                lemma_remove_keeps_distinct(i2, tabs_id);
            }
        },
    }
}

/// Whether two lists have the same keys at the same positions.
pub open spec fn keys_i_same(m1: Seq<(u64, ItemModel)>, m2: Seq<(u64, ItemModel)>) -> bool {
    m1.len() == m2.len() && forall|x: int| 0 <= x < m1.len() ==> (#[trigger] m2[x]).0 == m1[x].0
}

proof fn lemma_same_keys_index(m1: Seq<(u64, ItemModel)>, m2: Seq<(u64, ItemModel)>, k: u64)
    requires
        keys_i_same(m1, m2),
    ensures
        key_index(m1, k) == key_index(m2, k),
    decreases m1.len(),
{
    if m1.len() > 0 {
        assert(keys_i_same(m1.drop_last(), m2.drop_last()));
        lemma_same_keys_index(m1.drop_last(), m2.drop_last(), k);
        assert(m2.last().0 == m1.last().0);
    }
}

fn parent_of_exec(items: &Vec<(u64, DockItem)>, id: u64) -> (r: Option<(u64, u64)>)
    ensures
        r == parent_of(items_model(items@), id),
{
    let ghost im = items_model(items@);
    let mut i: usize = 0;
    assert(im.take(0) =~= Seq::<(u64, ItemModel)>::empty());
    while i < items.len()
        invariant
            i <= items@.len(),
            im == items_model(items@),
            parent_of(im.take(i as int), id) is None,
        decreases items@.len() - i,
    {
        assert(im.take(i + 1).drop_last() =~= im.take(i as int));
        assert(im.take(i + 1).last() == im[i as int]);
        let found = match &items[i].1 {
            DockItem::Splitter { a, b, .. } => {
                if *a == id { Some((items[i].0, *b)) } else if *b == id { Some((items[i].0, *a)) } else { None }
            },
            _ => None,
        };
        if found.is_some() {
            proof { lemma_parent_prefix(im, id, i + 1); }
            return found;
        }
        i = i + 1;
    }
    assert(im.take(i as int) =~= im);
    None
}

proof fn lemma_parent_prefix(items: Seq<(u64, ItemModel)>, id: u64, n: int)
    requires
        0 < n <= items.len(),
        parent_of(items.take(n), id) is Some,
    ensures
        parent_of(items, id) == parent_of(items.take(n), id),
    decreases items.len() - n,
{
    if n < items.len() {
        assert(items.take(n + 1).drop_last() =~= items.take(n));
        lemma_parent_prefix(items, id, n + 1);
    } else {
        assert(items.take(n) =~= items);
    }
}

fn collapse_tabs_container(items: &mut Vec<(u64, DockItem)>, tabs_id: u64, main_tabs: u64, sidebar_tabs: u64, root: u64)
    -> (r: Result<(), &'static str>)
    requires
        keys_distinct(old(items)@),
    ensures
        keys_distinct(final(items)@),
        match collapse(items_model(old(items)@), tabs_id, main_tabs, sidebar_tabs, root) {
            Ok(m) => r is Ok && items_model(final(items)@) == m,
            Err(e) => r matches Err(e2) && e2@ == e,
        },
{
    let (parent, sibling) = match parent_of_exec(items, tabs_id) {
        Some(ps) => ps,
        None => {
            let _ = items_remove(items, tabs_id);
            return Ok(());
        },
    };
    if parent == root {
        if sibling == main_tabs || sibling == sidebar_tabs {
            return Err("empty pane collapse would remove a required dock container id");
        }
        let content = match items_remove(items, sibling) {
            Some(c) => c,
            None => return Err("empty pane sibling is missing"),
        };
        items_insert(items, root, content);
    } else {
        if item_at(items, sibling).is_none() {
            return Err("empty pane sibling is missing");
        }
        if !replace_splitter_refs(items, parent, sibling) {
            return Err("empty pane parent splitter is detached");
        }
        let _ = items_remove(items, parent);
    }
    let _ = items_remove(items, tabs_id);
    Ok(())
}

/// Whether the item is a tab bar with no tabs.
pub open spec fn is_empty_tabs(o: Option<ItemModel>) -> bool {
    o matches Some(ItemModel::Tabs { tabs, .. }) && tabs.len() == 0
}

/// The first reachable tab bar (in walk order) that is empty and is none of
/// the root, the main tab bar and the sidebar's tab bar.
pub open spec fn first_empty(items: Seq<(u64, ItemModel)>, order: Seq<u64>, root: u64, main_tabs: u64, sidebar_tabs: u64) -> Option<u64>
    decreases order.len(),
{
    if order.len() == 0 {
        None
    } else {
        match first_empty(items, order.drop_last(), root, main_tabs, sidebar_tabs) {
            Some(x) => Some(x),
            None => {
                let id = order.last();
                if id != root && id != main_tabs && id != sidebar_tabs && is_empty_tabs(map_get(items, id)) {
                    Some(id)
                } else {
                    None
                }
            },
        }
    }
}

/// Collapses empty tab bars until none is left, walking the tree again after
/// each. Returns whether any was collapsed, the items, and the last walk.
pub open spec fn collapse_empty(items: Seq<(u64, ItemModel)>, order: Seq<u64>, root: u64, main_tabs: u64, sidebar_tabs: u64)
    -> Result<(bool, Seq<(u64, ItemModel)>, Seq<u64>), Seq<char>>
    decreases items.len(),
{
    match first_empty(items, order, root, main_tabs, sidebar_tabs) {
        None => Ok((false, items, order)),
        Some(e) => {
            if !keys_distinct(items) || !(map_get(items, e) matches Some(ItemModel::Tabs { .. })) {
                Err("dock item keys are not distinct"@)
            } else {
                match collapse(items, e, main_tabs, sidebar_tabs, root) {
                    Err(m) => Err(m),
                    Ok(i2) => {
                        proof {
                            lemma_collapse_shrinks(items, e, main_tabs, sidebar_tabs, root);
                        }
                        match walk(i2, root) {
                            Err(m) => Err(m),
                            Ok(o2) => match collapse_empty(i2, o2, root, main_tabs, sidebar_tabs) {
                                Err(m) => Err(m),
                                Ok(t) => Ok((true, t.1, t.2)),
                            },
                        }
                    },
                }
            }
        },
    }
}

// ---------------------------------------------------------------------------
// Bookkeeping of the open rooms
// ---------------------------------------------------------------------------

/// `open_rooms` with each of `known` recorded under its tab, and whether any
/// was missing or different.
pub open spec fn record_rooms(open_rooms: Seq<(u64, RoomModel)>, known: Seq<RoomModel>) -> (bool, Seq<(u64, RoomModel)>)
    decreases known.len(),
{
    if known.len() == 0 {
        (false, open_rooms)
    } else {
        let p = record_rooms(open_rooms, known.drop_last());
        let r = known.last();
        if map_get(p.1, r.tab_id) != Some(r) { (true, map_insert(p.1, r.tab_id, r)) } else { p }
    }
}

pub(crate) fn rooms_insert(m: &mut Vec<(u64, SelectedRoom)>, k: u64, v: SelectedRoom)
    requires
        keys_distinct(old(m)@),
    ensures
        open_rooms_model(final(m)@) == map_insert(open_rooms_model(old(m)@), k, room_model(v)),
        keys_distinct(final(m)@),
{
    proof {
        lemma_rooms_model_keys(old(m)@, k);
        lemma_key_index(old(m)@, k);
        lemma_insert_keeps_distinct(old(m)@, k, v);
    }
    match find_key(m, k) {
        Some(i) => {
            m.set(i, (k, v));
            assert(open_rooms_model(m@) =~= open_rooms_model(old(m)@).update(i as int, (k, room_model(v))));
            assert(m@ == old(m)@.update(i as int, (k, v)));
        },
        None => {
            m.push((k, v));
            assert(open_rooms_model(m@) =~= open_rooms_model(old(m)@).push((k, room_model(v))));
            assert(m@ == old(m)@.push((k, v)));
        },
    }
}

pub proof fn lemma_rooms_model_keys(m: Seq<(u64, SelectedRoom)>, k: u64)
    ensures
        key_index(open_rooms_model(m), k) == key_index(m, k),
        keys_distinct(m) == keys_distinct(open_rooms_model(m)),
        open_rooms_model(m).len() == m.len(),
    decreases m.len(),
{
    let mm = open_rooms_model(m);
    assert forall|i: int| 0 <= i < m.len() implies (#[trigger] mm[i]).0 == m[i].0 by {}
    if m.len() > 0 {
        lemma_rooms_model_keys(m.drop_last(), k);
        assert(open_rooms_model(m.drop_last()) =~= mm.drop_last());
    }
    if keys_distinct(m) {
        assert forall|i: int, j: int| 0 <= i < j < mm.len() implies (#[trigger] mm[i]).0 != (#[trigger] mm[j]).0 by {
            assert(mm[i].0 == m[i].0 && mm[j].0 == m[j].0);
        }
    }
    if keys_distinct(mm) {
        assert forall|i: int, j: int| 0 <= i < j < m.len() implies (#[trigger] m[i]).0 != (#[trigger] m[j]).0 by {
            assert(mm[i].0 == m[i].0 && mm[j].0 == m[j].0);
        }
    }
}

/// The room recorded under `k`, if any.
fn room_at(m: &Vec<(u64, SelectedRoom)>, k: u64) -> (r: Option<usize>)
    ensures
        match r {
            Some(i) => i < m@.len() && m@[i as int].0 == k
                && map_get(open_rooms_model(m@), k) == Some(room_model(m@[i as int].1)),
            None => map_get(open_rooms_model(m@), k) is None,
        },
{
    proof { lemma_rooms_model_keys(m@, k); lemma_key_index(m@, k); }
    find_key(m, k)
}

fn record_known_rooms(open_rooms: &mut Vec<(u64, SelectedRoom)>, room_order: &Vec<SelectedRoom>, selected_room: &Option<SelectedRoom>)
    -> (r: bool)
    requires
        keys_distinct(old(open_rooms)@),
    ensures
        keys_distinct(final(open_rooms)@),
        (r, open_rooms_model(final(open_rooms)@)) == record_rooms(open_rooms_model(old(open_rooms)@),
            rooms_model(room_order@) + opt_room(*selected_room)),
{
    let ghost known = rooms_model(room_order@) + opt_room(*selected_room);
    let ghost om0 = open_rooms_model(open_rooms@);
    let mut repaired = false;
    let n = room_order.len();
    let mut i: usize = 0;
    assert(known.take(0) =~= Seq::<RoomModel>::empty());
    while i < n
        invariant
            i <= n == room_order@.len(),
            known == rooms_model(room_order@) + opt_room(*selected_room),
            keys_distinct(open_rooms@),
            om0 == open_rooms_model(old(open_rooms)@),
            (repaired, open_rooms_model(open_rooms@)) == record_rooms(om0, known.take(i as int)),
        decreases n - i,
    {
        let room = &room_order[i];
        assert(known[i as int] == room_model(*room));
        assert(known.take(i + 1).drop_last() =~= known.take(i as int));
        assert(known.take(i + 1).last() == room_model(*room));
        let same = match room_at(open_rooms, room.tab_id) {
            Some(k) => open_rooms[k].1.same_as(room),
            None => false,
        };
        if !same {
            rooms_insert(open_rooms, room.tab_id, room.duplicate());
            repaired = true;
        }
        i = i + 1;
    }
    match selected_room {
        Some(room) => {
            assert(known.len() == n + 1);
            assert(known[n as int] == room_model(*room));
            assert(known.take(n + 1).drop_last() =~= known.take(n as int));
            assert(known.take(n + 1) =~= known);
            let same = match room_at(open_rooms, room.tab_id) {
                Some(k) => open_rooms[k].1.same_as(room),
                None => false,
            };
            if !same {
                rooms_insert(open_rooms, room.tab_id, room.duplicate());
                repaired = true;
            }
        },
        None => {
            assert(known.take(n as int) =~= known);
        },
    }
    repaired
}

pub open spec fn opt_room(o: Option<SelectedRoom>) -> Seq<RoomModel> {
    match o {
        Some(r) => seq![room_model(r)],
        None => Seq::empty(),
    }
}

/// The tab of an open room.
pub open spec fn room_tab_item(r: RoomModel, closeable_tab: u64) -> ItemModel {
    ItemModel::Tab { name: r.display_name, template: closeable_tab, kind: r.dock_kind }
}

/// Every open room gets its tab item back when it was lost; refused when its
/// tab ID holds a container.
pub open spec fn restore_room_tabs(items: Seq<(u64, ItemModel)>, open_rooms: Seq<(u64, RoomModel)>, closeable_tab: u64)
    -> Result<(bool, Seq<(u64, ItemModel)>), Seq<char>>
    decreases open_rooms.len(),
{
    if open_rooms.len() == 0 {
        Ok((false, items))
    } else {
        match restore_room_tabs(items, open_rooms.drop_last(), closeable_tab) {
            Err(e) => Err(e),
            Ok(p) => {
                let e = open_rooms.last();
                match map_get(p.1, e.0) {
                    Some(ItemModel::Tab { .. }) => Ok(p),
                    None => Ok((true, map_insert(p.1, e.0, room_tab_item(e.1, closeable_tab)))),
                    Some(_) => Err("open room tab id collides with a dock container"@),
                }
            },
        }
    }
}

proof fn lemma_restore_err_prefix(items: Seq<(u64, ItemModel)>, rooms: Seq<(u64, RoomModel)>, n: int, closeable_tab: u64)
    requires
        0 <= n <= rooms.len(),
        restore_room_tabs(items, rooms.take(n), closeable_tab) is Err,
    ensures
        restore_room_tabs(items, rooms, closeable_tab) == restore_room_tabs(items, rooms.take(n), closeable_tab),
    decreases rooms.len() - n,
{
    if n < rooms.len() {
        assert(rooms.take(n + 1).drop_last() =~= rooms.take(n));
        lemma_restore_err_prefix(items, rooms, n + 1, closeable_tab);
    } else {
        assert(rooms.take(n) =~= rooms);
    }
}

fn restore_open_room_tabs(items: &mut Vec<(u64, DockItem)>, open_rooms: &Vec<(u64, SelectedRoom)>, closeable_tab: u64)
    -> (r: Result<bool, &'static str>)
    requires
        keys_distinct(old(items)@),
    ensures
        keys_distinct(final(items)@),
        match restore_room_tabs(items_model(old(items)@), open_rooms_model(open_rooms@), closeable_tab) {
            Ok(p) => r == Ok::<bool, &'static str>(p.0) && items_model(final(items)@) == p.1,
            Err(e) => r matches Err(e2) && e2@ == e,
        },
{
    let ghost om = open_rooms_model(open_rooms@);
    let ghost im0 = items_model(items@);
    let mut repaired = false;
    let mut i: usize = 0;
    assert(om.take(0) =~= Seq::<(u64, RoomModel)>::empty());
    while i < open_rooms.len()
        invariant
            i <= open_rooms@.len(),
            om == open_rooms_model(open_rooms@),
            im0 == items_model(old(items)@),
            keys_distinct(items@),
            restore_room_tabs(im0, om.take(i as int), closeable_tab) == Ok::<(bool, Seq<(u64, ItemModel)>), Seq<char>>((repaired, items_model(items@))),
        decreases open_rooms@.len() - i,
    {
        let tab_id = open_rooms[i].0;
        assert(om.take(i + 1).drop_last() =~= om.take(i as int));
        assert(om.take(i + 1).last() == om[i as int]);
        match item_at(items, tab_id) {
            Some(k) => {
                let is_tab_item = match &items[k].1 {
                    DockItem::Tab { .. } => true,
                    _ => false,
                };
                if !is_tab_item {
                    proof { lemma_restore_err_prefix(im0, om, i + 1, closeable_tab); }
                    return Err("open room tab id collides with a dock container");
                }
            },
            None => {
                let room = &open_rooms[i].1;
                let tab = DockItem::Tab { name: room.display_name.clone(), template: closeable_tab, kind: room.dock_kind };
                items_insert(items, tab_id, tab);
                repaired = true;
            },
        }
        i = i + 1;
    }
    assert(om.take(i as int) =~= om);
    Ok(repaired)
}

// ---------------------------------------------------------------------------
// Settling the open rooms on the repaired tree
// ---------------------------------------------------------------------------

/// The tabs listed by the tab bars reached, in walk order.
pub open spec fn referenced_tabs(items: Seq<(u64, ItemModel)>, order: Seq<u64>) -> Seq<u64>
    decreases order.len(),
{
    if order.len() == 0 {
        Seq::empty()
    } else {
        referenced_tabs(items, order.drop_last()) + match map_get(items, order.last()) {
            Some(ItemModel::Tabs { tabs, .. }) => tabs,
            _ => Seq::empty(),
        }
    }
}

/// The position of the first `x` in `s`, or -1.
pub open spec fn first_index(s: Seq<u64>, x: u64) -> int
    decreases s.len(),
{
    if s.len() == 0 {
        -1
    } else {
        let p = first_index(s.drop_last(), x);
        if p >= 0 { p } else if s.last() == x { s.len() - 1 } else { -1 }
    }
}

/// The main tab bar selects the selected room's tab, when it lists it.
pub open spec fn fix_selected(items: Seq<(u64, ItemModel)>, main_tabs: u64, selected_room: Option<RoomModel>) -> (bool, Seq<(u64, ItemModel)>) {
    match selected_room {
        Some(sr) => match map_get(items, main_tabs) {
            Some(ItemModel::Tabs { tabs, selected, closable, hide_tab_bar }) => {
                let i = first_index(tabs, sr.tab_id);
                if i >= 0 && selected != i {
                    (true, map_insert(items, main_tabs, ItemModel::Tabs { tabs, selected: i as usize, closable, hide_tab_bar }))
                } else {
                    (false, items)
                }
            },
            _ => (false, items),
        },
        None => (false, items),
    }
}

/// The open rooms whose tabs are listed.
pub open spec fn keep_referenced(open_rooms: Seq<(u64, RoomModel)>, referenced: Seq<u64>) -> Seq<(u64, RoomModel)>
    decreases open_rooms.len(),
{
    if open_rooms.len() == 0 {
        Seq::empty()
    } else {
        let p = keep_referenced(open_rooms.drop_last(), referenced);
        if referenced.contains(open_rooms.last().0) { p.push(open_rooms.last()) } else { p }
    }
}

/// The room order without rooms that are not open or whose tab came
/// earlier; and the tabs kept.
pub open spec fn keep_order(room_order: Seq<RoomModel>, open_rooms: Seq<(u64, RoomModel)>) -> (Seq<RoomModel>, Seq<u64>)
    decreases room_order.len(),
{
    if room_order.len() == 0 {
        (Seq::empty(), Seq::empty())
    } else {
        let p = keep_order(room_order.drop_last(), open_rooms);
        let r = room_order.last();
        if key_index(open_rooms, r.tab_id) >= 0 && !p.1.contains(r.tab_id) { (p.0.push(r), p.1.push(r.tab_id)) } else { p }
    }
}

/// The open rooms whose tabs are not among `seen`, in the map's order.
pub open spec fn missing_rooms(open_rooms: Seq<(u64, RoomModel)>, seen: Seq<u64>) -> Seq<RoomModel>
    decreases open_rooms.len(),
{
    if open_rooms.len() == 0 {
        Seq::empty()
    } else {
        let p = missing_rooms(open_rooms.drop_last(), seen);
        let r = open_rooms.last().1;
        if seen.contains(r.tab_id) { p } else { p.push(r) }
    }
}

/// `x` inserted after every room whose tab ID is not above its own.
pub open spec fn insert_by_tab(t: Seq<RoomModel>, x: RoomModel) -> Seq<RoomModel>
    decreases t.len(),
{
    if t.len() == 0 {
        seq![x]
    } else if x.tab_id < t.last().tab_id {
        insert_by_tab(t.drop_last(), x).push(t.last())
    } else {
        t.push(x)
    }
}

/// The rooms sorted by tab ID (stable).
pub open spec fn sort_by_tab(s: Seq<RoomModel>) -> Seq<RoomModel>
    decreases s.len(),
{
    if s.len() == 0 { Seq::empty() } else { insert_by_tab(sort_by_tab(s.drop_last()), s.last()) }
}

/// After the tree is repaired: the main tab bar selects the selected room;
/// open rooms without a listed tab are dropped; the room order keeps each
/// open room once and gains the others (by tab ID); a selected room that is
/// no longer open is dropped. Returns whether anything changed, and the new
/// items, open rooms, room order and selected room.
pub open spec fn settle_rooms(items: Seq<(u64, ItemModel)>, order: Seq<u64>, main_tabs: u64,
    open_rooms: Seq<(u64, RoomModel)>, room_order: Seq<RoomModel>, selected_room: Option<RoomModel>)
    -> (bool, Seq<(u64, ItemModel)>, Seq<(u64, RoomModel)>, Seq<RoomModel>, Option<RoomModel>)
{
    let referenced = referenced_tabs(items, order);
    let f = fix_selected(items, main_tabs, selected_room);
    let open2 = keep_referenced(open_rooms, referenced);
    let k = keep_order(room_order, open2);
    let missing = sort_by_tab(missing_rooms(open2, k.1));
    let order2 = k.0 + missing;
    let drop_selected = selected_room matches Some(sr) && key_index(open2, sr.tab_id) < 0;
    let selected2 = if drop_selected { None } else { selected_room };
    (f.0 || open2.len() != open_rooms.len() || k.0.len() != room_order.len() || missing.len() > 0 || drop_selected,
        f.1, open2, order2, selected2)
}

/// The saved layout of the dock and the rooms open in it.
#[derive(Debug)]
pub struct SavedDockState {
    pub dock_items: Vec<(u64, DockItem)>,
    pub open_rooms: Vec<(u64, SelectedRoom)>,
    pub room_order: Vec<SelectedRoom>,
    pub selected_room: Option<SelectedRoom>,
}

/// A saved layout as plain values.
pub struct StateModel {
    pub items: Seq<(u64, ItemModel)>,
    pub open_rooms: Seq<(u64, RoomModel)>,
    pub room_order: Seq<RoomModel>,
    pub selected_room: Option<RoomModel>,
}

pub open spec fn opt_room_model(o: Option<SelectedRoom>) -> Option<RoomModel> {
    match o {
        Some(r) => Some(room_model(r)),
        None => None,
    }
}

impl SavedDockState {
    pub open spec fn model(self) -> StateModel {
        StateModel {
            items: items_model(self.dock_items@),
            open_rooms: open_rooms_model(self.open_rooms@),
            room_order: rooms_model(self.room_order@),
            selected_room: opt_room_model(self.selected_room),
        }
    }

    /// Whether no item and no open room is recorded twice.
    pub open spec fn wf(self) -> bool {
        keys_distinct(self.dock_items@) && keys_distinct(self.open_rooms@)
    }
}

fn referenced_tabs_exec(items: &Vec<(u64, DockItem)>, order: &Vec<u64>) -> (r: Vec<u64>)
    ensures
        r@ == referenced_tabs(items_model(items@), order@),
{
    let ghost im = items_model(items@);
    let mut r: Vec<u64> = Vec::new();
    let mut i: usize = 0;
    assert(order@.take(0) =~= Seq::<u64>::empty());
    while i < order.len()
        invariant
            i <= order@.len(),
            im == items_model(items@),
            r@ == referenced_tabs(im, order@.take(i as int)),
        decreases order@.len() - i,
    {
        let id = order[i];
        assert(order@.take(i + 1).drop_last() =~= order@.take(i as int));
        assert(order@.take(i + 1).last() == id);
        match item_at(items, id) {
            Some(k) => match &items[k].1 {
                DockItem::Tabs { tabs, .. } => {
                    let ghost before = r@;
                    let mut j: usize = 0;
                    while j < tabs.len()
                        invariant
                            j <= tabs@.len(),
                            r@ == before + tabs@.take(j as int),
                        decreases tabs@.len() - j,
                    {
                        r.push(tabs[j]);
                        assert(before + tabs@.take(j + 1) =~= (before + tabs@.take(j as int)).push(tabs@[j as int]));
                        j = j + 1;
                    }
                    assert(tabs@.take(j as int) =~= tabs@);
                },
                _ => {
                    assert(r@ =~= r@ + Seq::<u64>::empty());
                },
            },
            None => {
                assert(r@ =~= r@ + Seq::<u64>::empty());
            },
        }
        i = i + 1;
    }
    assert(order@.take(i as int) =~= order@);
    r
}

fn first_index_exec(s: &Vec<u64>, x: u64) -> (r: Option<usize>)
    ensures
        match r {
            Some(i) => first_index(s@, x) == i as int,
            None => first_index(s@, x) < 0,
        },
{
    let mut i: usize = 0;
    assert(s@.take(0) =~= Seq::<u64>::empty());
    while i < s.len()
        invariant
            i <= s@.len(),
            first_index(s@.take(i as int), x) < 0,
        decreases s@.len() - i,
    {
        assert(s@.take(i + 1).drop_last() =~= s@.take(i as int));
        assert(s@.take(i + 1).last() == s@[i as int]);
        if s[i] == x {
            proof { lemma_first_index_prefix(s@, x, i + 1); }
            return Some(i);
        }
        i = i + 1;
    }
    assert(s@.take(i as int) =~= s@);
    None
}

proof fn lemma_first_index_prefix(s: Seq<u64>, x: u64, n: int)
    requires
        0 < n <= s.len(),
        first_index(s.take(n), x) >= 0,
    ensures
        first_index(s, x) == first_index(s.take(n), x),
    decreases s.len() - n,
{
    if n < s.len() {
        assert(s.take(n + 1).drop_last() =~= s.take(n));
        lemma_first_index_prefix(s, x, n + 1);
    } else {
        assert(s.take(n) =~= s);
    }
}

fn sort_by_tab_exec(v: Vec<SelectedRoom>) -> (r: Vec<SelectedRoom>)
    ensures
        rooms_model(r@) == sort_by_tab(rooms_model(v@)),
{
    let ghost vm = rooms_model(v@);
    let mut r: Vec<SelectedRoom> = Vec::new();
    let mut i: usize = 0;
    assert(vm.take(0) =~= Seq::<RoomModel>::empty());
    assert(rooms_model(r@) =~= Seq::<RoomModel>::empty());
    while i < v.len()
        invariant
            i <= v@.len(),
            vm == rooms_model(v@),
            rooms_model(r@) == sort_by_tab(vm.take(i as int)),
        decreases v@.len() - i,
    {
        let x = v[i].duplicate();
        assert(vm.take(i + 1).drop_last() =~= vm.take(i as int));
        assert(vm.take(i + 1).last() == room_model(x));
        let ghost t = rooms_model(r@);
        let mut p = r.len();
        assert(t.take(p as int) =~= t);
        while p > 0 && x.tab_id < r[p - 1].tab_id
            invariant
                p <= t.len(),
                rooms_model(r@) == t,
                insert_by_tab(t, room_model(x)) == insert_by_tab(t.take(p as int), room_model(x)) + t.skip(p as int),
            decreases p,
        {
            assert(t[p - 1] == room_model(r@[p - 1]));
            assert(t.take(p as int).drop_last() =~= t.take(p - 1));
            assert(t.take(p as int).last() == t[p - 1]);
            assert(t.skip(p - 1) =~= seq![t[p - 1]] + t.skip(p as int));
            assert(insert_by_tab(t.take(p - 1), room_model(x)).push(t[p - 1]) + t.skip(p as int)
                =~= insert_by_tab(t.take(p - 1), room_model(x)) + t.skip(p - 1));
            p = p - 1;
        }
        if p > 0 {
            assert(t[p - 1] == room_model(r@[p - 1]));
            assert(t.take(p as int).last() == t[p - 1]);
            assert(insert_by_tab(t.take(p as int), room_model(x)) == t.take(p as int).push(room_model(x)));
        } else {
            assert(t.take(0) =~= Seq::<RoomModel>::empty());
        }
        let ghost xm = room_model(x);
        r.insert(p, x);
        assert(rooms_model(r@) =~= t.take(p as int).push(xm) + t.skip(p as int));
        i = i + 1;
    }
    assert(vm.take(i as int) =~= vm);
    r
}

fn settle_open_rooms(state: &mut SavedDockState, order: &Vec<u64>, main_tabs: u64) -> (r: bool)
    requires
        old(state).wf(),
    ensures
        final(state).wf(),
        (r, final(state).model().items, final(state).model().open_rooms, final(state).model().room_order, final(state).model().selected_room)
            == settle_rooms(old(state).model().items, order@, main_tabs, old(state).model().open_rooms,
                old(state).model().room_order, old(state).model().selected_room),
{
    let ghost m0 = state.model();
    let referenced = referenced_tabs_exec(&state.dock_items, order);
    // The main tab bar selects the selected room's tab.
    let mut fixed = false;
    let fix = match &state.selected_room {
        Some(sr) => match item_at(&state.dock_items, main_tabs) {
            Some(k) => match &state.dock_items[k].1 {
                DockItem::Tabs { tabs, selected, closable, hide_tab_bar } => match first_index_exec(tabs, sr.tab_id) {
                    Some(i) => if *selected != i {
                        Some(DockItem::Tabs { tabs: copy_tabs(tabs), selected: i, closable: *closable, hide_tab_bar: *hide_tab_bar })
                    } else {
                        None
                    },
                    None => None,
                },
                _ => None,
            },
            None => None,
        },
        None => None,
    };
    match fix {
        Some(item) => {
            items_insert(&mut state.dock_items, main_tabs, item);
            fixed = true;
        },
        None => {},
    }
    assert((fixed, items_model(state.dock_items@)) == fix_selected(m0.items, main_tabs, m0.selected_room));
    // Open rooms whose tabs are listed.
    let ghost om0 = m0.open_rooms;
    let mut open2: Vec<(u64, SelectedRoom)> = Vec::new();
    let mut i: usize = 0;
    assert(om0.take(0) =~= Seq::<(u64, RoomModel)>::empty());
    assert(open_rooms_model(open2@) =~= Seq::<(u64, RoomModel)>::empty());
    while i < state.open_rooms.len()
        invariant
            i <= state.open_rooms@.len(),
            om0 == open_rooms_model(state.open_rooms@),
            open_rooms_model(open2@) == keep_referenced(om0.take(i as int), referenced@),
        decreases state.open_rooms@.len() - i,
    {
        let k = state.open_rooms[i].0;
        assert(om0.take(i + 1).drop_last() =~= om0.take(i as int));
        assert(om0.take(i + 1).last() == om0[i as int]);
        if vec_contains(&referenced, k) {
            let ghost before = open_rooms_model(open2@);
            let room = state.open_rooms[i].1.duplicate();
            open2.push((k, room));
            assert(open_rooms_model(open2@) =~= before.push(om0[i as int]));
        }
        i = i + 1;
    }
    assert(om0.take(i as int) =~= om0);
    let ghost o2 = open_rooms_model(open2@);
    proof { lemma_keep_referenced_distinct(om0, referenced@); lemma_rooms_model_keys(open2@, 0); }
    // The room order keeps each open room once.
    let ghost ro0 = m0.room_order;
    let mut kept: Vec<SelectedRoom> = Vec::new();
    let mut seen: Vec<u64> = Vec::new();
    let mut j: usize = 0;
    assert(ro0.take(0) =~= Seq::<RoomModel>::empty());
    assert(rooms_model(kept@) =~= Seq::<RoomModel>::empty());
    while j < state.room_order.len()
        invariant
            j <= state.room_order@.len(),
            ro0 == rooms_model(state.room_order@),
            o2 == open_rooms_model(open2@),
            (rooms_model(kept@), seen@) == keep_order(ro0.take(j as int), o2),
        decreases state.room_order@.len() - j,
    {
        let t = state.room_order[j].tab_id;
        assert(ro0.take(j + 1).drop_last() =~= ro0.take(j as int));
        assert(ro0.take(j + 1).last() == ro0[j as int]);
        proof { lemma_rooms_model_keys(open2@, t); lemma_key_index(open2@, t); }
        let is_open = find_key(&open2, t).is_some();
        if is_open && !vec_contains(&seen, t) {
            let ghost before = rooms_model(kept@);
            kept.push(state.room_order[j].duplicate());
            seen.push(t);
            assert(rooms_model(kept@) =~= before.push(ro0[j as int]));
        }
        j = j + 1;
    }
    assert(ro0.take(j as int) =~= ro0);
    let kept_len = kept.len();
    // The open rooms missing from the order, by tab ID.
    let mut missing: Vec<SelectedRoom> = Vec::new();
    let mut q: usize = 0;
    assert(o2.take(0) =~= Seq::<(u64, RoomModel)>::empty());
    assert(rooms_model(missing@) =~= Seq::<RoomModel>::empty());
    while q < open2.len()
        invariant
            q <= open2@.len(),
            o2 == open_rooms_model(open2@),
            rooms_model(missing@) == missing_rooms(o2.take(q as int), seen@),
        decreases open2@.len() - q,
    {
        assert(o2.take(q + 1).drop_last() =~= o2.take(q as int));
        assert(o2.take(q + 1).last() == o2[q as int]);
        if !vec_contains(&seen, open2[q].1.tab_id) {
            let ghost before = rooms_model(missing@);
            missing.push(open2[q].1.duplicate());
            assert(rooms_model(missing@) =~= before.push(o2[q as int].1));
        }
        q = q + 1;
    }
    assert(o2.take(q as int) =~= o2);
    let sorted = sort_by_tab_exec(missing);
    let missing_len = sorted.len();
    let ghost kept_m = rooms_model(kept@);
    let ghost sorted_m = rooms_model(sorted@);
    let mut new_order = kept;
    let mut sorted_v = sorted;
    new_order.append(&mut sorted_v);
    assert(rooms_model(new_order@) =~= kept_m + sorted_m);
    let open_changed = open2.len() != state.open_rooms.len();
    let order_changed = kept_len != state.room_order.len() || missing_len > 0;
    // A selected room that is no longer open is dropped.
    let drop_selected = match &state.selected_room {
        Some(sr) => {
            proof { lemma_rooms_model_keys(open2@, sr.tab_id); lemma_key_index(open2@, sr.tab_id); }
            find_key(&open2, sr.tab_id).is_none()
        },
        None => false,
    };
    state.open_rooms = open2;
    state.room_order = new_order;
    if drop_selected {
        state.selected_room = None;
    }
    fixed || open_changed || order_changed || drop_selected
}

proof fn lemma_keep_referenced_distinct(m: Seq<(u64, RoomModel)>, referenced: Seq<u64>)
    requires
        keys_distinct(m),
    ensures
        keys_distinct(keep_referenced(m, referenced)),
        forall|i: int| 0 <= i < keep_referenced(m, referenced).len() ==>
            exists|j: int| 0 <= j < m.len() && #[trigger] keep_referenced(m, referenced)[i] == m[j],
    decreases m.len(),
{
    if m.len() > 0 {
        let d = m.drop_last();
        assert(keys_distinct(d)) by {
            assert forall|a: int, b: int| 0 <= a < b < d.len() implies (#[trigger] d[a]).0 != (#[trigger] d[b]).0 by {
                assert(d[a] == m[a] && d[b] == m[b]);
            }
        }
        lemma_keep_referenced_distinct(d, referenced);
        let p = keep_referenced(d, referenced);
        let r = keep_referenced(m, referenced);
        assert forall|i: int| 0 <= i < p.len() implies exists|j: int| 0 <= j < m.len() && #[trigger] p[i] == m[j] by {
            let j = choose|j: int| 0 <= j < d.len() && p[i] == d[j];
            assert(d[j] == m[j]);
        }
        if referenced.contains(m.last().0) {
            assert forall|a: int, b: int| 0 <= a < b < r.len() implies (#[trigger] r[a]).0 != (#[trigger] r[b]).0 by {
                if b == r.len() - 1 {
                    let j = choose|j: int| 0 <= j < m.len() && p[a] == m[j];
                    assert(r[a] == p[a]);
                    assert(j < d.len() || p[a] == m.last()) by {
                        let j2 = choose|j2: int| 0 <= j2 < d.len() && p[a] == d[j2];
                        assert(d[j2] == m[j2]);
                    }
                    let j2 = choose|j2: int| 0 <= j2 < d.len() && p[a] == d[j2];
                    assert(d[j2] == m[j2]);
                    assert(m[j2].0 != m[m.len() - 1].0);
                } else {
                    assert(r[a] == p[a] && r[b] == p[b]);
                }
            }
            assert forall|i: int| 0 <= i < r.len() implies exists|j: int| 0 <= j < m.len() && #[trigger] r[i] == m[j] by {
                if i < p.len() {
                    assert(r[i] == p[i]);
                } else {
                    assert(r[i] == m[m.len() - 1]);
                }
            }
        }
    }
}

// ---------------------------------------------------------------------------
// The repair
// ---------------------------------------------------------------------------

/// The IDs of the fixed parts of the dock, and of the templates and contents
/// of its fixed tabs.
pub struct DockIds {
    pub root: u64,
    pub home_tab: u64,
    pub main_tabs: u64,
    pub rooms_sidebar_tab: u64,
    pub rooms_sidebar_tabs: u64,
    pub permanent_tab: u64,
    pub closeable_tab: u64,
    pub welcome_screen: u64,
    pub rooms_sidebar: u64,
}

pub open spec fn home_tab_item(ids: DockIds) -> ItemModel {
    ItemModel::Tab { name: "Home"@, template: ids.permanent_tab, kind: ids.welcome_screen }
}

pub open spec fn sidebar_tab_item(ids: DockIds) -> ItemModel {
    ItemModel::Tab { name: "Rooms"@, template: ids.permanent_tab, kind: ids.rooms_sidebar }
}

/// The fixed tabs exist, the home tab is listed somewhere (by default in the
/// main tab bar), and the sidebar's tab bar lists the sidebar tab.
pub open spec fn ensure_fixed(ids: DockIds, items: Seq<(u64, ItemModel)>) -> Result<(bool, Seq<(u64, ItemModel)>), Seq<char>> {
    match ensure_fixed_tab(items, ids.home_tab, home_tab_item(ids)) {
        Err(e) => Err(e),
        Ok(r1) => match ensure_fixed_tab(r1.1, ids.rooms_sidebar_tab, sidebar_tab_item(ids)) {
            Err(e) => Err(e),
            Ok(r2) => {
                let r3 = if !any_tabs_contains(r2.1, ids.home_tab) {
                    ensure_tab_ref(r2.1, ids.main_tabs, ids.home_tab)
                } else {
                    Ok((false, r2.1))
                };
                match r3 {
                    Err(e) => Err(e),
                    Ok(r3) => match ensure_tab_ref(r3.1, ids.rooms_sidebar_tabs, ids.rooms_sidebar_tab) {
                        Err(e) => Err(e),
                        Ok(r4) => Ok((r1.0 || r2.0 || r3.0 || r4.0, r4.1)),
                    },
                }
            },
        },
    }
}

/// The tab bar holding the home tab becomes the main tab bar (under its
/// fixed ID); returns the walk after that.
pub open spec fn settle_main(ids: DockIds, items: Seq<(u64, ItemModel)>) -> Result<(bool, Seq<(u64, ItemModel)>, Seq<u64>), Seq<char>> {
    match walk(items, ids.root) {
        Err(e) => Err(e),
        Ok(o1) => match find_tabs_containing(items, o1, ids.home_tab) {
            None => Err("no reachable main-tabs container (holding home_tab) was found"@),
            Some(main_id) => if main_id == ids.root {
                match promote_root(items, ids.root, ids.main_tabs, ids.rooms_sidebar_tabs, ids.rooms_sidebar_tab) {
                    Err(e) => Err(e),
                    Ok(i2) => match walk(i2, ids.root) {
                        Err(e) => Err(e),
                        Ok(o2) => Ok((true, i2, o2)),
                    },
                }
            } else if main_id != ids.main_tabs {
                match normalize_main(items, ids.root, main_id, ids.main_tabs, o1) {
                    Err(e) => Err(e),
                    Ok(i2) => match walk(i2, ids.root) {
                        Err(e) => Err(e),
                        Ok(o2) => Ok((true, i2, o2)),
                    },
                }
            } else {
                Ok((false, items, o1))
            },
        },
    }
}

/// The items reached.
pub open spec fn retain_reachable(items: Seq<(u64, ItemModel)>, order: Seq<u64>) -> Seq<(u64, ItemModel)>
    decreases items.len(),
{
    if items.len() == 0 {
        Seq::empty()
    } else {
        let p = retain_reachable(items.drop_last(), order);
        if order.contains(items.last().0) { p.push(items.last()) } else { p }
    }
}

/// Dedupe, rescue of open rooms, collapse of empty tab bars, removal of what
/// is not reached, and the final checks that the home tab is in the main tab
/// bar and the sidebar tab is reached. Returns the last walk too.
pub open spec fn finish_tree(ids: DockIds, items: Seq<(u64, ItemModel)>, order: Seq<u64>,
    room_order: Seq<RoomModel>, open_rooms: Seq<(u64, RoomModel)>) -> Result<(bool, Seq<(u64, ItemModel)>, Seq<u64>), Seq<char>>
{
    let d = dedupe_tabs(items, items, order);
    let a = rescue_open_rooms(d.1, ids.main_tabs, d.2, room_order, open_rooms);
    match walk(a.1, ids.root) {
        Err(e) => Err(e),
        Ok(o3) => match collapse_empty(a.1, o3, ids.root, ids.main_tabs, ids.rooms_sidebar_tabs) {
            Err(e) => Err(e),
            Ok(c) => {
                let kept = retain_reachable(c.1, c.2);
                let dropped = kept.len() != c.1.len();
                let o5 = if dropped { walk(kept, ids.root) } else { Ok(c.2) };
                match o5 {
                    Err(e) => Err(e),
                    Ok(o5) => if find_tabs_containing(kept, o5, ids.home_tab) != Some(ids.main_tabs) {
                        Err("home_tab is not in the reachable main-tabs container"@)
                    } else if find_tabs_containing(kept, o5, ids.rooms_sidebar_tab) is None {
                        Err("rooms sidebar tab is not reachable"@)
                    } else {
                        Ok((d.0 || a.0 || c.0 || dropped, kept, o5))
                    },
                }
            },
        },
    }
}

/// The selected room joins the room order when it is not in it.
pub open spec fn order_with_selected(room_order: Seq<RoomModel>, selected: Option<RoomModel>) -> (bool, Seq<RoomModel>) {
    match selected {
        Some(sr) => if !room_order.contains(sr) { (true, room_order.push(sr)) } else { (false, room_order) },
        None => (false, room_order),
    }
}

/// The repair of a saved layout: whether anything had to change and the
/// repaired layout, or why it cannot be repaired.
pub open spec fn repair(ids: DockIds, m: StateModel) -> Result<(bool, StateModel), Seq<char>> {
    match ensure_fixed(ids, m.items) {
        Err(e) => Err(e),
        Ok(t1) => {
            let r1 = record_rooms(m.open_rooms, m.room_order + match m.selected_room { Some(r) => seq![r], None => Seq::empty() });
            let s1 = order_with_selected(m.room_order, m.selected_room);
            match restore_room_tabs(t1.1, r1.1, ids.closeable_tab) {
                Err(e) => Err(e),
                Ok(t2) => match settle_main(ids, t2.1) {
                    Err(e) => Err(e),
                    Ok(t3) => match finish_tree(ids, t3.1, t3.2, s1.1, r1.1) {
                        Err(e) => Err(e),
                        Ok(t4) => {
                            let f = settle_rooms(t4.1, t4.2, ids.main_tabs, r1.1, s1.1, m.selected_room);
                            Ok((t1.0 || r1.0 || s1.0 || t2.0 || t3.0 || t4.0 || f.0,
                                StateModel { items: f.1, open_rooms: f.2, room_order: f.3, selected_room: f.4 }))
                        },
                    },
                },
            }
        },
    }
}

fn first_empty_exec(items: &Vec<(u64, DockItem)>, order: &Vec<u64>, root: u64, main_tabs: u64, sidebar_tabs: u64) -> (r: Option<u64>)
    ensures
        r == first_empty(items_model(items@), order@, root, main_tabs, sidebar_tabs),
{
    let ghost im = items_model(items@);
    let mut i: usize = 0;
    assert(order@.take(0) =~= Seq::<u64>::empty());
    while i < order.len()
        invariant
            i <= order@.len(),
            im == items_model(items@),
            first_empty(im, order@.take(i as int), root, main_tabs, sidebar_tabs) is None,
        decreases order@.len() - i,
    {
        let id = order[i];
        assert(order@.take(i + 1).drop_last() =~= order@.take(i as int));
        assert(order@.take(i + 1).last() == id);
        let empty = if id != root && id != main_tabs && id != sidebar_tabs {
            match item_at(items, id) {
                Some(k) => match &items[k].1 {
                    DockItem::Tabs { tabs, .. } => tabs.len() == 0,
                    _ => false,
                },
                None => false,
            }
        } else {
            false
        };
        if empty {
            proof { lemma_first_empty_prefix(im, order@, i + 1, root, main_tabs, sidebar_tabs); }
            return Some(id);
        }
        i = i + 1;
    }
    assert(order@.take(i as int) =~= order@);
    None
}

proof fn lemma_first_empty_prefix(items: Seq<(u64, ItemModel)>, order: Seq<u64>, n: int, root: u64, main_tabs: u64, sidebar_tabs: u64)
    requires
        0 < n <= order.len(),
        first_empty(items, order.take(n), root, main_tabs, sidebar_tabs) is Some,
    ensures
        first_empty(items, order, root, main_tabs, sidebar_tabs) == first_empty(items, order.take(n), root, main_tabs, sidebar_tabs),
    decreases order.len() - n,
{
    if n < order.len() {
        assert(order.take(n + 1).drop_last() =~= order.take(n));
        lemma_first_empty_prefix(items, order, n + 1, root, main_tabs, sidebar_tabs);
    } else {
        assert(order.take(n) =~= order);
    }
}

proof fn lemma_first_empty_is_tabs(items: Seq<(u64, ItemModel)>, order: Seq<u64>, root: u64, main_tabs: u64, sidebar_tabs: u64)
    ensures
        first_empty(items, order, root, main_tabs, sidebar_tabs) matches Some(e) ==> is_empty_tabs(map_get(items, e)),
    decreases order.len(),
{
    if order.len() > 0 {
        lemma_first_empty_is_tabs(items, order.drop_last(), root, main_tabs, sidebar_tabs);
    }
}

fn retain_reachable_exec(items: &Vec<(u64, DockItem)>, order: &Vec<u64>) -> (r: Vec<(u64, DockItem)>)
    requires
        keys_distinct(items@),
    ensures
        items_model(r@) == retain_reachable(items_model(items@), order@),
        keys_distinct(r@),
{
    let ghost im = items_model(items@);
    let mut r: Vec<(u64, DockItem)> = Vec::new();
    let mut i: usize = 0;
    assert(im.take(0) =~= Seq::<(u64, ItemModel)>::empty());
    assert(items_model(r@) =~= Seq::<(u64, ItemModel)>::empty());
    while i < items.len()
        invariant
            i <= items@.len(),
            im == items_model(items@),
            keys_distinct(items@),
            items_model(r@) == retain_reachable(im.take(i as int), order@),
            forall|a: int| 0 <= a < r@.len() ==> exists|b: int| 0 <= b < i && (#[trigger] r@[a]).0 == items@[b].0,
            keys_distinct(r@),
        decreases items@.len() - i,
    {
        assert(im.take(i + 1).drop_last() =~= im.take(i as int));
        assert(im.take(i + 1).last() == im[i as int]);
        let k = items[i].0;
        if vec_contains(order, k) {
            let ghost before = items_model(r@);
            let ghost rb = r@;
            let item = copy_item(&items[i].1);
            r.push((k, item));
            assert(items_model(r@) =~= before.push(im[i as int]));
            assert forall|a: int, b: int| 0 <= a < b < r@.len() implies (#[trigger] r@[a]).0 != (#[trigger] r@[b]).0 by {
                if b == r@.len() - 1 {
                    assert(r@[a] == rb[a]);
                    let c = choose|c: int| 0 <= c < i && rb[a].0 == items@[c].0;
                } else {
                    assert(r@[a] == rb[a] && r@[b] == rb[b]);
                }
            }
            assert forall|a: int| 0 <= a < r@.len() implies exists|b: int| 0 <= b < i + 1 && (#[trigger] r@[a]).0 == items@[b].0 by {
                if a < rb.len() {
                    assert(r@[a] == rb[a]);
                    let c = choose|c: int| 0 <= c < i && rb[a].0 == items@[c].0;
                } else {
                    assert(r@[a].0 == items@[i as int].0);
                }
            }
        }
        i = i + 1;
    }
    assert(im.take(i as int) =~= im);
    r
}

fn walk_or_err(items: &Vec<(u64, DockItem)>, root: u64) -> (r: Result<Vec<u64>, &'static str>)
    requires
        keys_distinct(items@),
    ensures
        match walk(items_model(items@), root) {
            Ok(o) => r matches Ok(v) && v@ == o,
            Err(e) => r matches Err(e2) && e2@ == e,
        },
{
    walk_dock_tree(items, root)
}

fn repair_fixed(items: &mut Vec<(u64, DockItem)>, ids: &DockIds) -> (r: Result<bool, &'static str>)
    requires
        keys_distinct(old(items)@),
    ensures
        keys_distinct(final(items)@),
        match ensure_fixed(*ids, items_model(old(items)@)) {
            Ok(p) => r == Ok::<bool, &'static str>(p.0) && items_model(final(items)@) == p.1,
            Err(e) => r matches Err(e2) && e2@ == e,
        },
{
    let home = DockItem::Tab { name: String::from_str("Home"), template: ids.permanent_tab, kind: ids.welcome_screen };
    let r1 = match ensure_fixed_tab_item(items, ids.home_tab, home) {
        Ok(b) => b,
        Err(e) => return Err(e),
    };
    let side = DockItem::Tab { name: String::from_str("Rooms"), template: ids.permanent_tab, kind: ids.rooms_sidebar };
    let r2 = match ensure_fixed_tab_item(items, ids.rooms_sidebar_tab, side) {
        Ok(b) => b,
        Err(e) => return Err(e),
    };
    let r3 = if !any_tabs_contains_exec(items, ids.home_tab) {
        match ensure_tab_ref_in_tabs_container(items, ids.main_tabs, ids.home_tab) {
            Ok(b) => b,
            Err(e) => return Err(e),
        }
    } else {
        false
    };
    let r4 = match ensure_tab_ref_in_tabs_container(items, ids.rooms_sidebar_tabs, ids.rooms_sidebar_tab) {
        Ok(b) => b,
        Err(e) => return Err(e),
    };
    Ok(r1 || r2 || r3 || r4)
}

fn repair_main(items: &mut Vec<(u64, DockItem)>, ids: &DockIds) -> (r: Result<(bool, Vec<u64>), &'static str>)
    requires
        keys_distinct(old(items)@),
    ensures
        keys_distinct(final(items)@),
        match settle_main(*ids, items_model(old(items)@)) {
            Ok(p) => r matches Ok(q) && q.0 == p.0 && items_model(final(items)@) == p.1 && q.1@ == p.2,
            Err(e) => r matches Err(e2) && e2@ == e,
        },
{
    let o1 = match walk_or_err(items, ids.root) {
        Ok(o) => o,
        Err(e) => return Err(e),
    };
    let main_id = match find_tabs_containing_exec(items, &o1, ids.home_tab) {
        Some(m) => m,
        None => return Err("no reachable main-tabs container (holding home_tab) was found"),
    };
    if main_id == ids.root {
        match promote_root_tabs_to_default_split(items, ids.root, ids.main_tabs, ids.rooms_sidebar_tabs, ids.rooms_sidebar_tab) {
            Ok(()) => {},
            Err(e) => return Err(e),
        }
        match walk_or_err(items, ids.root) {
            Ok(o) => Ok((true, o)),
            Err(e) => Err(e),
        }
    } else if main_id != ids.main_tabs {
        match normalize_main_tabs_id(items, ids.root, main_id, ids.main_tabs, &o1) {
            Ok(()) => {},
            Err(e) => return Err(e),
        }
        match walk_or_err(items, ids.root) {
            Ok(o) => Ok((true, o)),
            Err(e) => Err(e),
        }
    } else {
        Ok((false, o1))
    }
}

fn collapse_empty_tabs(items: &mut Vec<(u64, DockItem)>, order_in: Vec<u64>, ids: &DockIds) -> (r: Result<(bool, Vec<u64>), &'static str>)
    requires
        keys_distinct(old(items)@),
    ensures
        keys_distinct(final(items)@),
        match collapse_empty(items_model(old(items)@), order_in@, ids.root, ids.main_tabs, ids.rooms_sidebar_tabs) {
            Ok(c) => r matches Ok(q) && q.0 == c.0 && items_model(final(items)@) == c.1 && q.1@ == c.2,
            Err(e) => r matches Err(e2) && e2@ == e,
        },
{
    let ghost target = collapse_empty(items_model(items@), order_in@, ids.root, ids.main_tabs, ids.rooms_sidebar_tabs);
    let mut order = order_in;
    let mut collapsed = false;
    loop
        invariant
            keys_distinct(items@),
            target == collapse_empty(items_model(old(items)@), order_in@, ids.root, ids.main_tabs, ids.rooms_sidebar_tabs),
            target == match collapse_empty(items_model(items@), order@, ids.root, ids.main_tabs, ids.rooms_sidebar_tabs) {
                Ok(c) => Ok((collapsed || c.0, c.1, c.2)),
                Err(e) => Err(e),
            },
        ensures
            keys_distinct(items@),
            first_empty(items_model(items@), order@, ids.root, ids.main_tabs, ids.rooms_sidebar_tabs) is None,
            target == match collapse_empty(items_model(items@), order@, ids.root, ids.main_tabs, ids.rooms_sidebar_tabs) {
                Ok(c) => Ok((collapsed || c.0, c.1, c.2)),
                Err(e) => Err(e),
            },
        decreases items@.len(),
    {
        let ghost cur = items_model(items@);
        let e = match first_empty_exec(items, &order, ids.root, ids.main_tabs, ids.rooms_sidebar_tabs) {
            Some(e) => e,
            None => break,
        };
        proof {
            lemma_first_empty_is_tabs(cur, order@, ids.root, ids.main_tabs, ids.rooms_sidebar_tabs);
            lemma_items_model_keys(items@, e);
        }
        match collapse_tabs_container(items, e, ids.main_tabs, ids.rooms_sidebar_tabs, ids.root) {
            Ok(()) => {},
            Err(m) => return Err(m),
        }
        proof {
            lemma_collapse_shrinks(cur, e, ids.main_tabs, ids.rooms_sidebar_tabs, ids.root);
            lemma_items_model_keys(items@, e);
        }
        order = match walk_or_err(items, ids.root) {
            Ok(o) => o,
            Err(m) => return Err(m),
        };
        collapsed = true;
    }
    Ok((collapsed, order))
}

fn repair_finish(items: &mut Vec<(u64, DockItem)>, ids: &DockIds, order_in: &Vec<u64>, room_order: &Vec<SelectedRoom>,
    open_rooms: &Vec<(u64, SelectedRoom)>) -> (r: Result<(bool, Vec<u64>), &'static str>)
    requires
        keys_distinct(old(items)@),
    ensures
        keys_distinct(final(items)@),
        match finish_tree(*ids, items_model(old(items)@), order_in@, rooms_model(room_order@), open_rooms_model(open_rooms@)) {
            Ok(p) => r matches Ok(q) && q.0 == p.0 && items_model(final(items)@) == p.1 && q.1@ == p.2,
            Err(e) => r matches Err(e2) && e2@ == e,
        },
{
    let (d0, mut referenced) = remove_bad_and_duplicate_tab_refs(items, order_in);
    let a0 = append_unreferenced_open_rooms_to_main_tabs(items, ids.main_tabs, &mut referenced, room_order, open_rooms);
    let o3 = match walk_or_err(items, ids.root) {
        Ok(o) => o,
        Err(e) => return Err(e),
    };
    let (collapsed, mut order) = match collapse_empty_tabs(items, o3, ids) {
        Ok(c) => c,
        Err(e) => return Err(e),
    };
    let kept = retain_reachable_exec(items, &order);
    let dropped = kept.len() != items.len();
    *items = kept;
    if dropped {
        order = match walk_or_err(items, ids.root) {
            Ok(o) => o,
            Err(m) => return Err(m),
        };
    }
    if find_tabs_containing_exec(items, &order, ids.home_tab) != Some(ids.main_tabs) {
        return Err("home_tab is not in the reachable main-tabs container");
    }
    if find_tabs_containing_exec(items, &order, ids.rooms_sidebar_tab).is_none() {
        return Err("rooms sidebar tab is not reachable");
    }
    Ok((d0 || a0 || collapsed || dropped, order))
}

/// Checks the given saved dock state and repairs it in place: removes
/// orphaned, duplicated and dangling references while keeping every open room
/// that can still be shown. `Ok` tells whether anything had to change; `Err`
/// means the state cannot be repaired and the default layout should be used
/// instead (the state is then left partly repaired).
pub fn validate_and_repair_dock_state(saved: &mut SavedDockState, ids: &DockIds) -> (r: Result<bool, &'static str>)
    requires
        old(saved).wf(),
    ensures
        match repair(*ids, old(saved).model()) {
            Ok(p) => r == Ok::<bool, &'static str>(p.0) && final(saved).model() == p.1 && final(saved).wf(),
            Err(e) => r matches Err(e2) && e2@ == e,
        },
{
    let ghost m0 = saved.model();
    let t1 = match repair_fixed(&mut saved.dock_items, ids) {
        Ok(b) => b,
        Err(e) => return Err(e),
    };
    // The open rooms recorded, and the selected room in the order.
    let rr = record_known_rooms(&mut saved.open_rooms, &saved.room_order, &saved.selected_room);
    assert(m0.room_order + match m0.selected_room { Some(r) => seq![r], None => Seq::empty() }
        == rooms_model(saved.room_order@) + opt_room(saved.selected_room));
    let s1 = add_selected_to_order(&mut saved.room_order, &saved.selected_room);
    // The tabs of open rooms, the main tab bar, the rest of the tree.
    let t2 = match restore_open_room_tabs(&mut saved.dock_items, &saved.open_rooms, ids.closeable_tab) {
        Ok(b) => b,
        Err(e) => return Err(e),
    };
    let (t3, o2) = match repair_main(&mut saved.dock_items, ids) {
        Ok(p) => p,
        Err(e) => return Err(e),
    };
    let (t4, order) = match repair_finish(&mut saved.dock_items, ids, &o2, &saved.room_order, &saved.open_rooms) {
        Ok(p) => p,
        Err(e) => return Err(e),
    };
    // The open rooms on the repaired tree.
    let f = settle_open_rooms(saved, &order, ids.main_tabs);
    Ok(t1 || rr || s1 || t2 || t3 || t4 || f)
}

fn add_selected_to_order(room_order: &mut Vec<SelectedRoom>, selected_room: &Option<SelectedRoom>) -> (r: bool)
    ensures
        (r, rooms_model(final(room_order)@)) == order_with_selected(rooms_model(old(room_order)@), opt_room_model(*selected_room)),
{
    let sr = match selected_room {
        Some(sr) => sr,
        None => return false,
    };
    let ghost ro = rooms_model(room_order@);
    let mut i: usize = 0;
    while i < room_order.len()
        invariant
            i <= room_order@.len(),
            ro == rooms_model(room_order@),
            room_order@ == old(room_order)@,
            opt_room_model(*selected_room) == Some(room_model(*sr)),
            forall|j: int| 0 <= j < i ==> ro[j] != room_model(*sr),
        decreases room_order@.len() - i,
    {
        if room_order[i].same_as(sr) {
            assert(ro[i as int] == room_model(*sr));
            assert(ro.contains(room_model(*sr)));
            return false;
        }
        i = i + 1;
    }
    assert(!ro.contains(room_model(*sr)));
    room_order.push(sr.duplicate());
    assert(rooms_model(room_order@) =~= ro.push(room_model(*sr)));
    true
}


// ---------------------------------------------------------------------------
// What a repaired layout guarantees
// ---------------------------------------------------------------------------

/// An item with the tab bar's selection set aside: all that the walk and the
/// lookups of tabs read of it.
pub open spec fn shape(o: Option<ItemModel>) -> Option<ItemModel> {
    match o {
        Some(ItemModel::Tabs { tabs, closable, hide_tab_bar, .. }) => Some(ItemModel::Tabs { tabs, selected: 0, closable, hide_tab_bar }),
        _ => o,
    }
}

/// Two item lists that differ at most in which tab each tab bar selects.
pub open spec fn same_shape(i1: Seq<(u64, ItemModel)>, i2: Seq<(u64, ItemModel)>) -> bool {
    i1.len() == i2.len() && forall|k: u64| #[trigger] shape(map_get(i1, k)) == shape(map_get(i2, k))
}

proof fn lemma_update_same_key<V>(m: Seq<(u64, V)>, i: int, v: V, q: u64)
    requires
        0 <= i < m.len(),
    ensures
        key_index(m.update(i, (m[i].0, v)), q) == key_index(m, q),
    decreases m.len(),
{
    let m2 = m.update(i, (m[i].0, v));
    if i < m.len() - 1 {
        assert(m2.drop_last() =~= m.drop_last().update(i, (m[i].0, v)));
        assert(m.drop_last()[i] == m[i]);
        lemma_update_same_key(m.drop_last(), i, v, q);
    } else {
        assert(m2.drop_last() =~= m.drop_last());
    }
}

proof fn lemma_visit_tab_children_same(i1: Seq<(u64, ItemModel)>, i2: Seq<(u64, ItemModel)>, tabs: Seq<u64>, order: Seq<u64>, visiting: Seq<u64>)
    requires
        same_shape(i1, i2),
    ensures
        visit_tab_children(i1, tabs, order, visiting) == visit_tab_children(i2, tabs, order, visiting),
    decreases tabs.len(),
{
    if tabs.len() > 0 {
        lemma_visit_tab_children_same(i1, i2, tabs.drop_last(), order, visiting);
        assert(shape(map_get(i1, tabs.last())) == shape(map_get(i2, tabs.last())));
    }
}

proof fn lemma_visit_same(i1: Seq<(u64, ItemModel)>, i2: Seq<(u64, ItemModel)>, id: u64, order: Seq<u64>, visiting: Seq<u64>, fuel: nat)
    requires
        same_shape(i1, i2),
    ensures
        visit(i1, id, order, visiting, fuel) == visit(i2, id, order, visiting, fuel),
    decreases fuel,
{
    assert(shape(map_get(i1, id)) == shape(map_get(i2, id)));
    if fuel > 0 {
        let order1 = order.push(id);
        let visiting1 = visiting.push(id);
        match map_get(i1, id) {
            Some(ItemModel::Splitter { a, b, .. }) => {
                lemma_visit_same(i1, i2, a, order1, visiting1, (fuel - 1) as nat);
                match visit(i1, a, order1, visiting1, (fuel - 1) as nat) {
                    Ok(order2) => lemma_visit_same(i1, i2, b, order2, visiting1, (fuel - 1) as nat),
                    Err(_) => {},
                }
            },
            Some(ItemModel::Tabs { tabs, .. }) => {
                lemma_visit_tab_children_same(i1, i2, tabs, order1, visiting1);
            },
            _ => {},
        }
    }
}

proof fn lemma_walk_same(i1: Seq<(u64, ItemModel)>, i2: Seq<(u64, ItemModel)>, root: u64)
    requires
        same_shape(i1, i2),
    ensures
        walk(i1, root) == walk(i2, root),
{
    assert(shape(map_get(i1, root)) == shape(map_get(i2, root)));
    lemma_visit_same(i1, i2, root, Seq::empty(), Seq::empty(), (i1.len() + 1) as nat);
}

proof fn lemma_lookups_same(i1: Seq<(u64, ItemModel)>, i2: Seq<(u64, ItemModel)>, order: Seq<u64>, tab_id: u64)
    requires
        same_shape(i1, i2),
    ensures
        find_tabs_containing(i1, order, tab_id) == find_tabs_containing(i2, order, tab_id),
        referenced_tabs(i1, order) == referenced_tabs(i2, order),
    decreases order.len(),
{
    if order.len() > 0 {
        lemma_lookups_same(i1, i2, order.drop_last(), tab_id);
        assert(shape(map_get(i1, order.last())) == shape(map_get(i2, order.last())));
    }
}

proof fn lemma_fix_selected_shape(items: Seq<(u64, ItemModel)>, main_tabs: u64, selected_room: Option<RoomModel>)
    ensures
        same_shape(items, fix_selected(items, main_tabs, selected_room).1),
{
    let f = fix_selected(items, main_tabs, selected_room);
    if f.0 {
        let i = key_index(items, main_tabs);
        lemma_key_index(items, main_tabs);
        match map_get(items, main_tabs) {
            Some(ItemModel::Tabs { tabs, selected, closable, hide_tab_bar }) => {
                let v = ItemModel::Tabs { tabs, selected: first_index(tabs, selected_room->0.tab_id) as usize, closable, hide_tab_bar };
                assert(f.1 == items.update(i, (items[i].0, v)));
                assert forall|k: u64| #[trigger] shape(map_get(items, k)) == shape(map_get(f.1, k)) by {
                    lemma_update_same_key(items, i, v, k);
                    lemma_key_index(items, k);
                    let j = key_index(items, k);
                    if j == i {
                        assert(f.1[i] == (items[i].0, v));
                        assert(items[i].1 == map_get(items, main_tabs)->0);
                    } else if j >= 0 {
                        assert(f.1[j] == items[j]);
                    }
                }
            },
            _ => {},
        }
    }
}

/// Each open room is recorded under its own tab ID.
pub open spec fn rooms_under_own_tabs(open_rooms: Seq<(u64, RoomModel)>) -> bool {
    forall|i: int| 0 <= i < open_rooms.len() ==> (#[trigger] open_rooms[i]).0 == open_rooms[i].1.tab_id
}

/// No two rooms share a tab ID.
pub open spec fn tab_ids_distinct(rooms: Seq<RoomModel>) -> bool {
    forall|i: int, j: int| 0 <= i < j < rooms.len() ==> (#[trigger] rooms[i]).tab_id != (#[trigger] rooms[j]).tab_id
}

proof fn lemma_keep_referenced_listed(m: Seq<(u64, RoomModel)>, referenced: Seq<u64>)
    ensures
        forall|i: int| 0 <= i < keep_referenced(m, referenced).len() ==> referenced.contains(#[trigger] keep_referenced(m, referenced)[i].0),
        rooms_under_own_tabs(m) ==> rooms_under_own_tabs(keep_referenced(m, referenced)),
    decreases m.len(),
{
    if m.len() > 0 {
        lemma_keep_referenced_listed(m.drop_last(), referenced);
        let p = keep_referenced(m.drop_last(), referenced);
        let r = keep_referenced(m, referenced);
        if referenced.contains(m.last().0) {
            assert forall|i: int| 0 <= i < r.len() implies referenced.contains(#[trigger] r[i].0) by {
                if i < p.len() { assert(r[i] == p[i]); }
            }
        }
        if rooms_under_own_tabs(m) {
            assert(rooms_under_own_tabs(m.drop_last())) by {
                assert forall|i: int| 0 <= i < m.drop_last().len() implies (#[trigger] m.drop_last()[i]).0 == m.drop_last()[i].1.tab_id by {
                    assert(m.drop_last()[i] == m[i]);
                }
            }
            assert(m.last() == m[m.len() - 1]);
            assert forall|i: int| 0 <= i < r.len() implies (#[trigger] r[i]).0 == r[i].1.tab_id by {
                if i < p.len() { assert(r[i] == p[i]); }
            }
        }
    }
}

proof fn lemma_keep_order(room_order: Seq<RoomModel>, open_rooms: Seq<(u64, RoomModel)>)
    ensures
        keep_order(room_order, open_rooms).1.len() == keep_order(room_order, open_rooms).0.len(),
        forall|i: int| 0 <= i < keep_order(room_order, open_rooms).0.len() ==>
            (#[trigger] keep_order(room_order, open_rooms).0[i]).tab_id == keep_order(room_order, open_rooms).1[i],
        forall|i: int| 0 <= i < keep_order(room_order, open_rooms).0.len() ==>
            key_index(open_rooms, (#[trigger] keep_order(room_order, open_rooms).0[i]).tab_id) >= 0,
        tab_ids_distinct(keep_order(room_order, open_rooms).0),
    decreases room_order.len(),
{
    if room_order.len() > 0 {
        lemma_keep_order(room_order.drop_last(), open_rooms);
        let p = keep_order(room_order.drop_last(), open_rooms);
        let k = keep_order(room_order, open_rooms);
        let r = room_order.last();
        if key_index(open_rooms, r.tab_id) >= 0 && !p.1.contains(r.tab_id) {
            assert forall|i: int| 0 <= i < k.0.len() implies (#[trigger] k.0[i]).tab_id == k.1[i] by {
                if i < p.0.len() { assert(k.0[i] == p.0[i] && k.1[i] == p.1[i]); }
            }
            assert forall|i: int| 0 <= i < k.0.len() implies key_index(open_rooms, (#[trigger] k.0[i]).tab_id) >= 0 by {
                if i < p.0.len() { assert(k.0[i] == p.0[i]); }
            }
            assert forall|i: int, j: int| 0 <= i < j < k.0.len() implies (#[trigger] k.0[i]).tab_id != (#[trigger] k.0[j]).tab_id by {
                assert(k.0[i] == p.0[i]);
                if j < p.0.len() {
                    assert(k.0[j] == p.0[j]);
                } else {
                    assert(p.1[i] == p.0[i].tab_id);
                }
            }
        }
    }
}

proof fn lemma_missing_rooms(open_rooms: Seq<(u64, RoomModel)>, seen: Seq<u64>)
    requires
        keys_distinct(open_rooms),
        rooms_under_own_tabs(open_rooms),
    ensures
        tab_ids_distinct(missing_rooms(open_rooms, seen)),
        forall|i: int| 0 <= i < missing_rooms(open_rooms, seen).len() ==>
            key_index(open_rooms, (#[trigger] missing_rooms(open_rooms, seen)[i]).tab_id) >= 0
            && !seen.contains(missing_rooms(open_rooms, seen)[i].tab_id),
        forall|i: int| 0 <= i < open_rooms.len() && !seen.contains((#[trigger] open_rooms[i]).0) ==>
            missing_rooms(open_rooms, seen).contains(open_rooms[i].1),
    decreases open_rooms.len(),
{
    if open_rooms.len() > 0 {
        let d = open_rooms.drop_last();
        assert(keys_distinct(d)) by {
            assert forall|a: int, b: int| 0 <= a < b < d.len() implies (#[trigger] d[a]).0 != (#[trigger] d[b]).0 by {
                assert(d[a] == open_rooms[a] && d[b] == open_rooms[b]);
            }
        }
        assert(rooms_under_own_tabs(d)) by {
            assert forall|i: int| 0 <= i < d.len() implies (#[trigger] d[i]).0 == d[i].1.tab_id by {
                assert(d[i] == open_rooms[i]);
            }
        }
        lemma_missing_rooms(d, seen);
        let p = missing_rooms(d, seen);
        let m = missing_rooms(open_rooms, seen);
        let last = open_rooms[open_rooms.len() - 1];
        assert(open_rooms.last() == last);
        assert forall|i: int| 0 <= i < p.len() implies key_index(open_rooms, (#[trigger] p[i]).tab_id) >= 0 && p[i].tab_id != last.0 by {
            lemma_key_index(d, p[i].tab_id);
            let j = key_index(d, p[i].tab_id);
            assert(d[j] == open_rooms[j]);
            lemma_key_index(open_rooms, p[i].tab_id);
        }
        if !seen.contains(last.1.tab_id) {
            assert forall|i: int, j: int| 0 <= i < j < m.len() implies (#[trigger] m[i]).tab_id != (#[trigger] m[j]).tab_id by {
                assert(m[i] == p[i]);
                if j < p.len() { assert(m[j] == p[j]); }
            }
            assert forall|i: int| 0 <= i < m.len() implies key_index(open_rooms, (#[trigger] m[i]).tab_id) >= 0
                && !seen.contains(m[i].tab_id) by {
                if i < p.len() { assert(m[i] == p[i]); } else { lemma_key_index(open_rooms, last.0); }
            }
            assert(m[m.len() - 1] == last.1);
        }
        assert forall|i: int| 0 <= i < open_rooms.len() && !seen.contains((#[trigger] open_rooms[i]).0) implies m.contains(open_rooms[i].1) by {
            if i < d.len() {
                assert(d[i] == open_rooms[i]);
                assert(p.contains(open_rooms[i].1));
                let w = choose|w: int| 0 <= w < p.len() && p[w] == open_rooms[i].1;
                assert(m[w] == p[w]);
            } else {
                assert(m[m.len() - 1] == last.1);
            }
        }
    }
}

proof fn lemma_insert_by_tab(t: Seq<RoomModel>, x: RoomModel)
    ensures
        forall|y: RoomModel| #[trigger] insert_by_tab(t, x).contains(y) <==> (t.contains(y) || y == x),
        tab_ids_distinct(t) && (forall|i: int| 0 <= i < t.len() ==> (#[trigger] t[i]).tab_id != x.tab_id)
            ==> tab_ids_distinct(insert_by_tab(t, x)),
    decreases t.len(),
{
    if t.len() > 0 && x.tab_id < t.last().tab_id {
        let d = t.drop_last();
        lemma_insert_by_tab(d, x);
        let q = insert_by_tab(d, x);
        let r = insert_by_tab(t, x);
        assert forall|y: RoomModel| r.contains(y) <==> (t.contains(y) || y == x) by {
            if r.contains(y) {
                let w = choose|w: int| 0 <= w < r.len() && r[w] == y;
                if w < q.len() { assert(q[w] == y); assert(q.contains(y)); if d.contains(y) { let v = choose|v: int| 0 <= v < d.len() && d[v] == y; assert(t[v] == y); } } else { assert(t[t.len() - 1] == y); }
            }
            if t.contains(y) {
                let w = choose|w: int| 0 <= w < t.len() && t[w] == y;
                if w < d.len() { assert(d[w] == y); assert(d.contains(y)); assert(q.contains(y)); let v = choose|v: int| 0 <= v < q.len() && q[v] == y; assert(r[v] == y); } else { assert(r[r.len() - 1] == y); }
            }
            if y == x {
                assert(q.contains(x));
                let v = choose|v: int| 0 <= v < q.len() && q[v] == x;
                assert(r[v] == x);
            }
        }
        if tab_ids_distinct(t) && (forall|i: int| 0 <= i < t.len() ==> (#[trigger] t[i]).tab_id != x.tab_id) {
            assert(tab_ids_distinct(d)) by {
                assert forall|i: int, j: int| 0 <= i < j < d.len() implies (#[trigger] d[i]).tab_id != (#[trigger] d[j]).tab_id by {
                    assert(d[i] == t[i] && d[j] == t[j]);
                }
            }
            assert forall|i: int| 0 <= i < d.len() implies (#[trigger] d[i]).tab_id != x.tab_id by {
                assert(d[i] == t[i]);
            }
            assert forall|i: int, j: int| 0 <= i < j < r.len() implies (#[trigger] r[i]).tab_id != (#[trigger] r[j]).tab_id by {
                assert(r[i] == q[i]);
                if j < q.len() {
                    assert(r[j] == q[j]);
                } else {
                    assert(q.contains(q[i]));
                    if q[i] == x {
                        assert(t[t.len() - 1].tab_id != x.tab_id);
                    } else {
                        let v = choose|v: int| 0 <= v < d.len() && d[v] == q[i];
                        assert(d[v] == t[v]);
                    }
                }
            }
        }
    } else if t.len() > 0 {
        let r = insert_by_tab(t, x);
        assert(r == t.push(x));
        assert forall|y: RoomModel| r.contains(y) <==> (t.contains(y) || y == x) by {
            if r.contains(y) {
                let w = choose|w: int| 0 <= w < r.len() && r[w] == y;
                if w < t.len() { assert(t[w] == y); }
            }
            if t.contains(y) {
                let w = choose|w: int| 0 <= w < t.len() && t[w] == y;
                assert(r[w] == y);
            }
            if y == x { assert(r[t.len() as int] == x); }
        }
    } else {
        let r = insert_by_tab(t, x);
        assert(r == seq![x]);
        assert forall|y: RoomModel| r.contains(y) <==> (t.contains(y) || y == x) by {
            if y == x { assert(r[0] == x); }
        }
    }
}

proof fn lemma_sort_by_tab(s: Seq<RoomModel>)
    ensures
        forall|y: RoomModel| #[trigger] sort_by_tab(s).contains(y) <==> s.contains(y),
        tab_ids_distinct(s) ==> tab_ids_distinct(sort_by_tab(s)),
    decreases s.len(),
{
    if s.len() > 0 {
        let d = s.drop_last();
        lemma_sort_by_tab(d);
        let q = sort_by_tab(d);
        lemma_insert_by_tab(q, s.last());
        assert forall|y: RoomModel| #[trigger] sort_by_tab(s).contains(y) <==> s.contains(y) by {
            assert(insert_by_tab(q, s.last()).contains(y) <==> (q.contains(y) || y == s.last()));
            assert(q.contains(y) <==> d.contains(y));
            if s.contains(y) {
                let w = choose|w: int| 0 <= w < s.len() && s[w] == y;
                if w < d.len() { assert(d[w] == y); }
            }
            if d.contains(y) {
                let w = choose|w: int| 0 <= w < d.len() && d[w] == y;
                assert(s[w] == y);
            }
            assert(s[s.len() - 1] == s.last());
        }
        if tab_ids_distinct(s) {
            assert(tab_ids_distinct(d)) by {
                assert forall|i: int, j: int| 0 <= i < j < d.len() implies (#[trigger] d[i]).tab_id != (#[trigger] d[j]).tab_id by {
                    assert(d[i] == s[i] && d[j] == s[j]);
                }
            }
            assert forall|i: int| 0 <= i < q.len() implies (#[trigger] q[i]).tab_id != s.last().tab_id by {
                assert(q.contains(q[i]));
                let w = choose|w: int| 0 <= w < d.len() && d[w] == q[i];
                assert(d[w] == s[w]);
                assert(s[s.len() - 1] == s.last());
            }
        }
    }
}

proof fn lemma_settle_rooms(items: Seq<(u64, ItemModel)>, order: Seq<u64>, main_tabs: u64,
    open_rooms: Seq<(u64, RoomModel)>, room_order: Seq<RoomModel>, selected_room: Option<RoomModel>)
    requires
        keys_distinct(open_rooms),
        rooms_under_own_tabs(open_rooms),
    ensures ({
        let s = settle_rooms(items, order, main_tabs, open_rooms, room_order, selected_room);
        &&& keys_distinct(s.2)
        &&& rooms_under_own_tabs(s.2)
        &&& forall|i: int| 0 <= i < s.2.len() ==> referenced_tabs(items, order).contains(#[trigger] s.2[i].0)
        &&& tab_ids_distinct(s.3)
        &&& forall|j: int| 0 <= j < s.3.len() ==> key_index(s.2, (#[trigger] s.3[j]).tab_id) >= 0
        &&& forall|i: int| 0 <= i < s.2.len() ==> exists|j: int| 0 <= j < s.3.len() && (#[trigger] s.3[j]).tab_id == (#[trigger] s.2[i]).0
        &&& (s.4 matches Some(sr) ==> key_index(s.2, sr.tab_id) >= 0)
    }),
{
    let referenced = referenced_tabs(items, order);
    let open2 = keep_referenced(open_rooms, referenced);
    let k = keep_order(room_order, open2);
    let missing = missing_rooms(open2, k.1);
    let sorted = sort_by_tab(missing);
    let order2 = k.0 + sorted;
    lemma_keep_referenced_distinct(open_rooms, referenced);
    lemma_keep_referenced_listed(open_rooms, referenced);
    lemma_keep_order(room_order, open2);
    lemma_missing_rooms(open2, k.1);
    lemma_sort_by_tab(missing);
    assert(settle_rooms(items, order, main_tabs, open_rooms, room_order, selected_room).3 == order2);
    assert forall|j: int| 0 <= j < order2.len() implies key_index(open2, (#[trigger] order2[j]).tab_id) >= 0 by {
        if j < k.0.len() {
            assert(order2[j] == k.0[j]);
        } else {
            assert(order2[j] == sorted[j - k.0.len()]);
            assert(sorted.contains(sorted[j - k.0.len()]));
            let w = choose|w: int| 0 <= w < missing.len() && missing[w] == sorted[j - k.0.len()];
        }
    }
    assert forall|a: int, b: int| 0 <= a < b < order2.len() implies (#[trigger] order2[a]).tab_id != (#[trigger] order2[b]).tab_id by {
        if b < k.0.len() {
            assert(order2[a] == k.0[a] && order2[b] == k.0[b]);
        } else if a >= k.0.len() {
            assert(order2[a] == sorted[a - k.0.len()] && order2[b] == sorted[b - k.0.len()]);
        } else {
            assert(order2[a] == k.0[a]);
            assert(order2[b] == sorted[b - k.0.len()]);
            assert(sorted.contains(sorted[b - k.0.len()]));
            let w = choose|w: int| 0 <= w < missing.len() && missing[w] == sorted[b - k.0.len()];
            assert(k.1[a] == k.0[a].tab_id);
            assert(k.1.contains(k.0[a].tab_id));
        }
    }
    assert forall|i: int| 0 <= i < open2.len() implies exists|j: int| 0 <= j < order2.len() && (#[trigger] order2[j]).tab_id == (#[trigger] open2[i]).0 by {
        if k.1.contains(open2[i].0) {
            let w = choose|w: int| 0 <= w < k.1.len() && k.1[w] == open2[i].0;
            assert(order2[w] == k.0[w]);
            assert(k.0[w].tab_id == k.1[w]);
        } else {
            assert(missing.contains(open2[i].1));
            assert(sorted.contains(open2[i].1));
            let w = choose|w: int| 0 <= w < sorted.len() && sorted[w] == open2[i].1;
            assert(order2[k.0.len() + w] == sorted[w]);
        }
    }
}

proof fn lemma_retain_all(items: Seq<(u64, ItemModel)>, order: Seq<u64>)
    ensures
        retain_reachable(items, order).len() <= items.len(),
        retain_reachable(items, order).len() == items.len() ==> retain_reachable(items, order) == items,
    decreases items.len(),
{
    if items.len() > 0 {
        lemma_retain_all(items.drop_last(), order);
        if retain_reachable(items, order).len() == items.len() {
            assert(items.drop_last().push(items.last()) =~= items);
        }
    }
}

proof fn lemma_collapse_keeps_walk(items: Seq<(u64, ItemModel)>, order: Seq<u64>, root: u64, main_tabs: u64, sidebar_tabs: u64)
    requires
        walk(items, root) == Ok::<Seq<u64>, Seq<char>>(order),
        collapse_empty(items, order, root, main_tabs, sidebar_tabs) is Ok,
    ensures
        walk(collapse_empty(items, order, root, main_tabs, sidebar_tabs)->Ok_0.1, root)
            == Ok::<Seq<u64>, Seq<char>>(collapse_empty(items, order, root, main_tabs, sidebar_tabs)->Ok_0.2),
    decreases items.len(),
{
    match first_empty(items, order, root, main_tabs, sidebar_tabs) {
        None => {},
        Some(e) => {
            let i2 = collapse(items, e, main_tabs, sidebar_tabs, root)->Ok_0;
            lemma_collapse_shrinks(items, e, main_tabs, sidebar_tabs, root);
            let o2 = walk(i2, root)->Ok_0;
            lemma_collapse_keeps_walk(i2, o2, root, main_tabs, sidebar_tabs);
        },
    }
}

/// What a usable layout offers: walking it from the root succeeds; the home
/// tab sits in the main tab bar and the rooms sidebar tab is reached; every
/// open room's tab is listed by a tab bar reached; the room order names each
/// open room once and nothing else; the selected room, if any, is open.
pub open spec fn usable_layout(ids: DockIds, m: StateModel) -> bool {
    match walk(m.items, ids.root) {
        Err(_) => false,
        Ok(o) => {
            &&& find_tabs_containing(m.items, o, ids.home_tab) == Some(ids.main_tabs)
            &&& find_tabs_containing(m.items, o, ids.rooms_sidebar_tab) is Some
            &&& keys_distinct(m.open_rooms)
            &&& forall|i: int| 0 <= i < m.open_rooms.len() ==> referenced_tabs(m.items, o).contains(#[trigger] m.open_rooms[i].0)
            &&& tab_ids_distinct(m.room_order)
            &&& forall|j: int| 0 <= j < m.room_order.len() ==> key_index(m.open_rooms, (#[trigger] m.room_order[j]).tab_id) >= 0
            &&& forall|i: int| 0 <= i < m.open_rooms.len() ==>
                exists|j: int| 0 <= j < m.room_order.len() && (#[trigger] m.room_order[j]).tab_id == (#[trigger] m.open_rooms[i]).0
            &&& (m.selected_room matches Some(sr) ==> key_index(m.open_rooms, sr.tab_id) >= 0)
        },
    }
}

proof fn lemma_finish_tree(ids: DockIds, items: Seq<(u64, ItemModel)>, order: Seq<u64>,
    room_order: Seq<RoomModel>, open_rooms: Seq<(u64, RoomModel)>)
    requires
        finish_tree(ids, items, order, room_order, open_rooms) is Ok,
    ensures ({
        let t = finish_tree(ids, items, order, room_order, open_rooms)->Ok_0;
        &&& walk(t.1, ids.root) == Ok::<Seq<u64>, Seq<char>>(t.2)
        &&& find_tabs_containing(t.1, t.2, ids.home_tab) == Some(ids.main_tabs)
        &&& find_tabs_containing(t.1, t.2, ids.rooms_sidebar_tab) is Some
    }),
{
    let d = dedupe_tabs(items, items, order);
    let a = rescue_open_rooms(d.1, ids.main_tabs, d.2, room_order, open_rooms);
    let o3 = walk(a.1, ids.root)->Ok_0;
    let c = collapse_empty(a.1, o3, ids.root, ids.main_tabs, ids.rooms_sidebar_tabs)->Ok_0;
    lemma_collapse_keeps_walk(a.1, o3, ids.root, ids.main_tabs, ids.rooms_sidebar_tabs);
    lemma_retain_all(c.1, c.2);
}

proof fn lemma_record_rooms(open_rooms: Seq<(u64, RoomModel)>, known: Seq<RoomModel>)
    requires
        keys_distinct(open_rooms),
        rooms_under_own_tabs(open_rooms),
    ensures
        keys_distinct(record_rooms(open_rooms, known).1),
        rooms_under_own_tabs(record_rooms(open_rooms, known).1),
    decreases known.len(),
{
    if known.len() > 0 {
        lemma_record_rooms(open_rooms, known.drop_last());
        let p = record_rooms(open_rooms, known.drop_last()).1;
        let r = known.last();
        lemma_insert_keeps_distinct(p, r.tab_id, r);
        lemma_key_index(p, r.tab_id);
        let m2 = map_insert(p, r.tab_id, r);
        assert forall|i: int| 0 <= i < m2.len() implies (#[trigger] m2[i]).0 == m2[i].1.tab_id by {
            if i < p.len() && i != key_index(p, r.tab_id) { assert(m2[i] == p[i]); }
        }
    }
}

/// A layout that the repair accepts comes out usable (see `usable_layout`),
/// provided each open room was saved under its own tab ID.
pub proof fn lemma_repaired_layout_is_usable(ids: DockIds, m: StateModel)
    requires
        keys_distinct(m.open_rooms),
        rooms_under_own_tabs(m.open_rooms),
        repair(ids, m) is Ok,
    ensures
        usable_layout(ids, repair(ids, m)->Ok_0.1),
{
    let t1 = ensure_fixed(ids, m.items)->Ok_0;
    let r1 = record_rooms(m.open_rooms, m.room_order + match m.selected_room { Some(r) => seq![r], None => Seq::empty() });
    let s1 = order_with_selected(m.room_order, m.selected_room);
    let t2 = restore_room_tabs(t1.1, r1.1, ids.closeable_tab)->Ok_0;
    let t3 = settle_main(ids, t2.1)->Ok_0;
    let t4 = finish_tree(ids, t3.1, t3.2, s1.1, r1.1)->Ok_0;
    let f = settle_rooms(t4.1, t4.2, ids.main_tabs, r1.1, s1.1, m.selected_room);
    lemma_record_rooms(m.open_rooms, m.room_order + match m.selected_room { Some(r) => seq![r], None => Seq::empty() });
    lemma_finish_tree(ids, t3.1, t3.2, s1.1, r1.1);
    lemma_settle_rooms(t4.1, t4.2, ids.main_tabs, r1.1, s1.1, m.selected_room);
    lemma_fix_selected_shape(t4.1, ids.main_tabs, m.selected_room);
    lemma_walk_same(t4.1, f.1, ids.root);
    lemma_lookups_same(t4.1, f.1, t4.2, ids.home_tab);
    lemma_lookups_same(t4.1, f.1, t4.2, ids.rooms_sidebar_tab);
    let m2 = StateModel { items: f.1, open_rooms: f.2, room_order: f.3, selected_room: f.4 };
    assert(repair(ids, m)->Ok_0.1 == m2);
    assert(walk(m2.items, ids.root) == Ok::<Seq<u64>, Seq<char>>(t4.2));
    assert(referenced_tabs(m2.items, t4.2) == referenced_tabs(t4.1, t4.2));
    assert(find_tabs_containing(m2.items, t4.2, ids.home_tab) == Some(ids.main_tabs));
    assert(find_tabs_containing(m2.items, t4.2, ids.rooms_sidebar_tab) is Some);
    assert(keys_distinct(m2.open_rooms));
    assert(forall|i: int| 0 <= i < m2.open_rooms.len() ==> referenced_tabs(m2.items, t4.2).contains(#[trigger] m2.open_rooms[i].0));
    assert(tab_ids_distinct(m2.room_order));
    assert(forall|j: int| 0 <= j < m2.room_order.len() ==> key_index(m2.open_rooms, (#[trigger] m2.room_order[j]).tab_id) >= 0);
    assert(forall|i: int| 0 <= i < m2.open_rooms.len() ==>
                exists|j: int| 0 <= j < m2.room_order.len() && (#[trigger] m2.room_order[j]).tab_id == (#[trigger] m2.open_rooms[i]).0);
    assert(m2.selected_room matches Some(sr) ==> key_index(m2.open_rooms, sr.tab_id) >= 0);
}

// ---------------------------------------------------------------------------
// Which layout to restore
// ---------------------------------------------------------------------------

/// What the dock restores for a space.
pub enum RestorePlan {
    /// The default layout: nothing was saved, or nothing worth keeping.
    UseDefault,
    /// The saved layout (repaired, when `repaired`; the repaired one is then
    /// saved back).
    Restore { state: SavedDockState, repaired: bool },
    /// The saved layout cannot be repaired: the default layout, with the
    /// saved selected room, and the saved rooms reopened in their order.
    Fallback { reason: &'static str, selected_room: Option<SelectedRoom>, room_order: Vec<SelectedRoom> },
}

/// Whether a saved layout records no room at all.
pub open spec fn records_nothing(m: StateModel) -> bool {
    m.open_rooms.len() == 0 && m.room_order.len() == 0 && m.selected_room is None
}

fn copy_rooms(v: &Vec<SelectedRoom>) -> (r: Vec<SelectedRoom>)
    ensures
        rooms_model(r@) == rooms_model(v@),
{
    let mut r: Vec<SelectedRoom> = Vec::new();
    let mut i: usize = 0;
    while i < v.len()
        invariant
            i <= v@.len(),
            rooms_model(r@) == rooms_model(v@.take(i as int)),
        decreases v@.len() - i,
    {
        r.push(v[i].duplicate());
        assert(rooms_model(v@.take(i + 1)) =~= rooms_model(v@.take(i as int)).push(room_model(v@[i as int])));
        assert(rooms_model(r@) =~= rooms_model(v@.take(i as int)).push(room_model(v@[i as int])));
        i = i + 1;
    }
    assert(v@.take(i as int) =~= v@);
    r
}

/// The layout to restore from what was saved for a space (`None`: nothing).
pub fn plan_restore(saved: Option<SavedDockState>, ids: &DockIds) -> (r: RestorePlan)
    requires
        saved matches Some(s) ==> s.wf(),
    ensures
        match saved {
            None => r is UseDefault,
            Some(s) => if records_nothing(s.model()) {
                r is UseDefault
            } else {
                match repair(*ids, s.model()) {
                    Ok(p) => r matches RestorePlan::Restore { state, repaired } && repaired == p.0 && state.model() == p.1
                        && state.wf(),
                    Err(e) => r matches RestorePlan::Fallback { reason, selected_room, room_order } && reason@ == e
                        && opt_room_model(selected_room) == opt_room_model(s.selected_room)
                        && rooms_model(room_order@) == rooms_model(s.room_order@),
                }
            },
        },
{
    let mut s = match saved {
        Some(s) => s,
        None => return RestorePlan::UseDefault,
    };
    if s.open_rooms.len() == 0 && s.room_order.len() == 0 && s.selected_room.is_none() {
        proof { lemma_rooms_model_keys(s.open_rooms@, 0); }
        return RestorePlan::UseDefault;
    }
    proof { lemma_rooms_model_keys(s.open_rooms@, 0); }
    let selected = match &s.selected_room {
        Some(r) => Some(r.duplicate()),
        None => None,
    };
    let order = copy_rooms(&s.room_order);
    match validate_and_repair_dock_state(&mut s, ids) {
        Ok(repaired) => RestorePlan::Restore { state: s, repaired },
        Err(reason) => RestorePlan::Fallback { reason, selected_room: selected, room_order: order },
    }
}

} // verus!
