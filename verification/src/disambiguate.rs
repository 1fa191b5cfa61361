//! Telling apart items of the same name that live in different modules.
//!
//! Every item has a name, a full name and the name of its module. Items are
//! looked up by name, optionally with a prefix before a colon that says
//! which module is meant. The prefixes that an item answers to are its full
//! name, every tail of its module name that starts behind a dot, and the
//! empty prefix. All texts are compared in ASCII lower case.

use crate::fx::{
    map_get, map_insert, map_lists, map_new, map_remove, set_contains, set_insert, set_new, set_texts,
    PairIndex,
};
use crate::text::{ascii_lower, to_ascii_lowercase};
use vstd::prelude::*;

verus! {

/// A trait for items that can be disambiguated between modules.
pub trait CanDisambiguate {
    /// The display name for the type of object this is.
    const CLASS_NAME: &'static str;

    /// Returns the name of the disambiguated item.
    fn name(&self) -> &str;

    /// Returns the full name of the disambiguated item.
    fn full_name(&self) -> &str;

    /// Returns the name of the module this disambiguated item is in.
    fn module_name(&self) -> &str;
}

/// A value together with the names it gave for itself.
pub struct Named<T> {
    pub value: T,
    pub name: String,
    pub full_name: String,
    pub module_name: String,
}

/// An item together with the prefixes it answers to.
#[derive(Debug)]
pub struct Disambiguated<T: CanDisambiguate> {
    /// The actual disambiguated value.
    pub value: T,
    /// The shortest unambiguous prefix for this item, not accounting for permissions and such.
    pub disambiguated_prefix: String,
    /// The list of prefixes allowed for this item, in order from longest to shortest.
    pub allowed_prefixes: Vec<String>,
}

/// The texts of a list of strings.
pub open spec fn texts(list: Seq<String>) -> Seq<Seq<char>> {
    Seq::new(list.len(), |i: int| list[i]@)
}

/// The three names of an item, in lower case.
pub struct ItemView {
    pub name: Seq<char>,
    pub full_name: Seq<char>,
    pub module_name: Seq<char>,
}

/// The names of an item, in lower case.
pub open spec fn item_view<T>(item: Named<T>) -> ItemView {
    ItemView {
        name: ascii_lower(item.name@),
        full_name: ascii_lower(item.full_name@),
        module_name: ascii_lower(item.module_name@),
    }
}

/// The names of the items, in lower case.
pub open spec fn item_views<T>(values: Seq<Named<T>>) -> Seq<ItemView> {
    Seq::new(values.len(), |i: int| item_view(values[i]))
}

/// Whether the item at `i` is kept: no item before it has the same full
/// name. Of several items with one full name only the first is kept.
pub open spec fn is_kept(items: Seq<ItemView>, i: int) -> bool {
    forall|j: int| 0 <= j < i ==> (#[trigger] items[j]).full_name != items[i].full_name
}

/// The tails of `module` that start behind a dot at position `from` or
/// later, longest first.
pub open spec fn dot_tails(module: Seq<char>, from: int) -> Seq<Seq<char>>
    decreases module.len() - from,
{
    if from < 0 || from >= module.len() {
        Seq::empty()
    } else if module[from] == '.' {
        seq![module.skip(from + 1)] + dot_tails(module, from + 1)
    } else {
        dot_tails(module, from + 1)
    }
}

/// The prefixes that an item answers to, longest first: its full name, the
/// tails of its module name behind each dot, and the empty prefix.
pub open spec fn prefixes_of(item: ItemView) -> Seq<Seq<char>> {
    seq![item.full_name] + dot_tails(item.module_name, 0) + seq![Seq::<char>::empty()]
}

/// How often `p` occurs in `list`.
pub open spec fn occurrences(list: Seq<Seq<char>>, p: Seq<char>) -> nat
    decreases list.len(),
{
    if list.len() == 0 {
        0
    } else {
        occurrences(list.drop_last(), p) + if list.last() == p {
            1nat
        } else {
            0nat
        }
    }
}

/// The name and the prefixes of a kept item.
pub struct RowView {
    pub name: Seq<char>,
    pub prefixes: Seq<Seq<char>>,
}

/// The names and prefixes of the kept items among the first `n`, in their
/// order.
pub open spec fn kept_rows(items: Seq<ItemView>, n: int) -> Seq<RowView>
    decreases n,
{
    if n <= 0 {
        Seq::empty()
    } else if is_kept(items, n - 1) {
        kept_rows(items, n - 1).push(
            RowView { name: items[n - 1].name, prefixes: prefixes_of(items[n - 1]) },
        )
    } else {
        kept_rows(items, n - 1)
    }
}

/// The kept values among the first `n`, in their order.
pub open spec fn kept_values<T>(values: Seq<Named<T>>, n: int) -> Seq<T>
    decreases n,
{
    if n <= 0 {
        Seq::empty()
    } else if is_kept(item_views(values), n - 1) {
        kept_values(values, n - 1).push(values[n - 1].value)
    } else {
        kept_values(values, n - 1)
    }
}

/// The position `at`, `times` times.
pub open spec fn repeated(at: int, times: nat) -> Seq<int> {
    Seq::new(times, |k: int| at)
}

/// The positions of the items that a lookup finds among the first `n`: the
/// items of the given name that answer to the given prefix, in their order,
/// each as often as it has the prefix.
pub open spec fn matches_of(rows: Seq<RowView>, name: Seq<char>, prefix: Seq<char>, n: int) -> Seq<int>
    decreases n,
{
    if n <= 0 {
        Seq::empty()
    } else if rows[n - 1].name == name {
        matches_of(rows, name, prefix, n - 1) + repeated(n - 1, occurrences(rows[n - 1].prefixes, prefix))
    } else {
        matches_of(rows, name, prefix, n - 1)
    }
}

/// The prefix that tells the item at `k` apart, looking at the first `m`
/// of its prefixes: the last of them that a lookup under the item's name
/// finds exactly once; the first prefix, the full name, if there is none.
pub open spec fn chosen_in(rows: Seq<RowView>, k: int, m: int) -> Seq<char>
    decreases m,
{
    let prefixes = rows[k].prefixes;
    if m <= 0 {
        prefixes[0]
    } else if matches_of(rows, rows[k].name, prefixes[m - 1], rows.len() as int).len() == 1 {
        prefixes[m - 1]
    } else {
        chosen_in(rows, k, m - 1)
    }
}

/// An item of a set, as plain values.
pub struct EntryView<T> {
    /// The name of the item, in lower case.
    pub name: Seq<char>,
    pub value: T,
    pub disambiguated_prefix: Seq<char>,
    pub allowed_prefixes: Seq<Seq<char>>,
}

/// What a set made of the given values holds: the kept values in their
/// order, each with its name, its prefixes and the prefix that tells it
/// apart.
pub open spec fn built<T>(values: Seq<Named<T>>) -> Seq<EntryView<T>> {
    let rows = kept_rows(item_views(values), values.len() as int);
    let kept = kept_values(values, values.len() as int);
    Seq::new(
        rows.len(),
        |k: int|
            EntryView {
                name: rows[k].name,
                value: kept[k],
                disambiguated_prefix: chosen_in(rows, k, rows[k].prefixes.len() as int),
                allowed_prefixes: rows[k].prefixes,
            },
    )
}

/// The names and prefixes of the entries.
pub open spec fn outline<T>(entries: Seq<EntryView<T>>) -> Seq<RowView> {
    Seq::new(entries.len(), |k: int| RowView { name: entries[k].name, prefixes: entries[k].allowed_prefixes })
}

/// Whether no name before position `a` is the name at `a`.
pub open spec fn is_leader(names: Seq<Seq<char>>, a: int) -> bool {
    forall|j: int| 0 <= j < a ==> (#[trigger] names[j]) != names[a]
}

/// The positions, among the first `n`, at which `name` stands, ascending.
pub open spec fn members(names: Seq<Seq<char>>, name: Seq<char>, n: int) -> Seq<int>
    decreases n,
{
    if n <= 0 {
        Seq::empty()
    } else if names[n - 1] == name {
        members(names, name, n - 1).push(n - 1)
    } else {
        members(names, name, n - 1)
    }
}

/// The positions grouped by name: the groups in the order in which their
/// names first appear among the first `a` positions, and each group in
/// ascending order.
pub open spec fn grouped_order(names: Seq<Seq<char>>, a: int) -> Seq<int>
    decreases a,
{
    if a <= 0 {
        Seq::empty()
    } else if is_leader(names, a - 1) {
        grouped_order(names, a - 1) + members(names, names[a - 1], names.len() as int)
    } else {
        grouped_order(names, a - 1)
    }
}

/// The positions of the colons in a text, ascending.
pub open spec fn colons(text: Seq<char>, n: int) -> Seq<int>
    decreases n,
{
    if n <= 0 {
        Seq::empty()
    } else if text[n - 1] == ':' {
        colons(text, n - 1).push(n - 1)
    } else {
        colons(text, n - 1)
    }
}

/// The prefix and the name that a looked-up text stands for: without a
/// colon the whole text is the name and the prefix is empty; with one
/// colon the prefix stands before it and the name behind it. A text with
/// more colons stands for nothing.
pub open spec fn split_name(text: Seq<char>) -> Option<(Seq<char>, Seq<char>)> {
    let at = colons(text, text.len() as int);
    if at.len() == 0 {
        Some((Seq::empty(), text))
    } else if at.len() == 1 {
        Some((text.take(at[0]), text.skip(at[0] + 1)))
    } else {
        None
    }
}

/// Why a lookup was refused.
#[derive(Clone, Copy, Debug, PartialEq, Eq, Structural)]
pub enum ResolveError {
    /// The looked-up text has more than one colon.
    TooManyColons,
}

/// The text of the error for a name with more than one colon.
pub open spec fn too_many_colons_message(class_name: Seq<char>) -> Seq<char> {
    "No more than one `:` can appear in a "@ + class_name + " name."@
}

impl ResolveError {
    /// The error as a text, for items of the class called `class_name`.
    pub fn message(&self, class_name: &str) -> (r: String)
        ensures
            r@ == too_many_colons_message(class_name@),
    {
        let mut text = "No more than one `:` can appear in a ".to_owned();
        text.append(class_name);
        text.append(" name.");
        text
    }
}

/// The lower-case names of a list of values.
fn lowered<T>(values: &Vec<Named<T>>) -> (r: (Vec<String>, Vec<String>, Vec<String>))
    ensures
        r.0@.len() == values@.len(),
        r.1@.len() == values@.len(),
        r.2@.len() == values@.len(),
        forall|i: int|
            0 <= i < values@.len() ==> (#[trigger] item_views(values@)[i]) == (ItemView {
                name: r.0@[i]@,
                full_name: r.1@[i]@,
                module_name: r.2@[i]@,
            }),
{
    let mut names: Vec<String> = Vec::new();
    let mut fulls: Vec<String> = Vec::new();
    let mut modules: Vec<String> = Vec::new();
    let mut i: usize = 0;
    while i < values.len()
        invariant
            i <= values@.len(),
            names@.len() == i,
            fulls@.len() == i,
            modules@.len() == i,
            forall|k: int|
                0 <= k < i ==> (#[trigger] item_views(values@)[k]) == (ItemView {
                    name: names@[k]@,
                    full_name: fulls@[k]@,
                    module_name: modules@[k]@,
                }),
        decreases values@.len() - i,
    {
        names.push(to_ascii_lowercase(values[i].name.as_str()));
        fulls.push(to_ascii_lowercase(values[i].full_name.as_str()));
        modules.push(to_ascii_lowercase(values[i].module_name.as_str()));
        i = i + 1;
    }
    (names, fulls, modules)
}

/// The text of `s` from character position `from` on.
fn tail_from(s: &str, from: usize) -> (r: String)
    requires
        from <= s@.len(),
    ensures
        r@ == s@.skip(from as int),
{
    let mut r = String::new();
    let total = s.unicode_len();
    let mut k: usize = 0;
    for c in it: s.chars()
        invariant
            it.seq() == s@,
            total == s@.len(),
            k == it.index(),
            from <= s@.len(),
            r@ == if k <= from {
                Seq::<char>::empty()
            } else {
                s@.subrange(from as int, k as int)
            },
    {
        if k >= from {
            r.push(c);
            assert(r@ =~= s@.subrange(from as int, k + 1));
        }
        k = k + 1;
    }
    assert(r@ =~= s@.skip(from as int));
    r
}

/// The prefixes that an item with the given lower-case full name and
/// module name answers to.
fn prefixes_for(full_name: &str, module_name: &str) -> (r: Vec<String>)
    ensures
        texts(r@) == prefixes_of(
            ItemView { name: Seq::empty(), full_name: full_name@, module_name: module_name@ },
        ),
{
    let ghost module = module_name@;
    let mut list: Vec<String> = Vec::new();
    list.push(full_name.to_owned());
    let total = module_name.unicode_len();
    let mut k: usize = 0;
    assert(texts(list@) =~= seq![full_name@]);
    for c in it: module_name.chars()
        invariant
            it.seq() == module,
            module == module_name@,
            total == module.len(),
            k == it.index(),
            texts(list@) + dot_tails(module, k as int) == seq![full_name@] + dot_tails(module, 0),
    {
        if c == '.' {
            let ghost before = texts(list@);
            list.push(tail_from(module_name, k + 1));
            assert(texts(list@) =~= before.push(module.skip(k + 1)));
            assert(texts(list@) + dot_tails(module, k + 1) =~= before + dot_tails(module, k as int));
        }
        k = k + 1;
    }
    let ghost before = texts(list@);
    assert(before =~= seq![full_name@] + dot_tails(module, 0)) by {
        assert(dot_tails(module, k as int) =~= Seq::<Seq<char>>::empty());
    }
    list.push(String::new());
    assert(texts(list@) =~= before.push(Seq::<char>::empty()));
    assert(texts(list@) =~= seq![full_name@] + dot_tails(module, 0) + seq![Seq::<char>::empty()]);
    list
}

/// An item has at least two prefixes; the first is its full name and the
/// last is empty.
pub proof fn lemma_prefixes_start_with_full_name(item: ItemView)
    ensures
        prefixes_of(item).len() >= 2,
        prefixes_of(item)[0] == item.full_name,
        prefixes_of(item).last() == Seq::<char>::empty(),
{
    let tails = dot_tails(item.module_name, 0);
    assert(prefixes_of(item).len() == 1 + tails.len() + 1);
}

/// A copy of a list of strings.
fn clone_strings(list: &Vec<String>) -> (r: Vec<String>)
    ensures
        texts(r@) == texts(list@),
{
    let mut copy: Vec<String> = Vec::new();
    let mut i: usize = 0;
    while i < list.len()
        invariant
            i <= list@.len(),
            copy@.len() == i,
            forall|k: int| 0 <= k < i ==> (#[trigger] copy@[k])@ == list@[k]@,
        decreases list@.len() - i,
    {
        copy.push(list[i].clone());
        i = i + 1;
    }
    assert(texts(copy@) =~= texts(list@));
    copy
}

/// A set of items that can be looked up by name.
pub struct DisambiguatedSet<T: CanDisambiguate> {
    list: Vec<Disambiguated<T>>,
    names: Vec<String>,
    order: Vec<usize>,
    // the positions of the items by name and prefix;
    // a name without a prefix is looked up with the empty prefix
    by_name: PairIndex,
}

impl<T: CanDisambiguate> View for DisambiguatedSet<T> {
    type V = Seq<EntryView<T>>;

    closed spec fn view(&self) -> Seq<EntryView<T>> {
        view_of(self.list@, self.names@)
    }
}

/// The entries that a list of items with their names stands for.
spec fn view_of<T: CanDisambiguate>(list: Seq<Disambiguated<T>>, names: Seq<String>) -> Seq<EntryView<T>> {
    Seq::new(
        list.len(),
        |i: int|
            EntryView {
                name: names[i]@,
                value: list[i].value,
                disambiguated_prefix: list[i].disambiguated_prefix@,
                allowed_prefixes: texts(list[i].allowed_prefixes@),
            },
    )
}

/// The names of the entries.
pub open spec fn entry_names<T>(entries: Seq<EntryView<T>>) -> Seq<Seq<char>> {
    Seq::new(entries.len(), |i: int| entries[i].name)
}

/// Whether `item` is what the set holds in `entry`.
pub open spec fn shows<T: CanDisambiguate>(item: &Disambiguated<T>, entry: EntryView<T>) -> bool {
    &&& item.value == entry.value
    &&& item.disambiguated_prefix@ == entry.disambiguated_prefix
    &&& texts(item.allowed_prefixes@) == entry.allowed_prefixes
}

/// The positions in `order` are positions of `names`.
spec fn in_range(order: Seq<usize>, n: int) -> bool {
    forall|k: int| 0 <= k < order.len() ==> (#[trigger] order[k]) < n
}

/// The positions as integers.
spec fn as_ints(order: Seq<usize>) -> Seq<int> {
    Seq::new(order.len(), |k: int| order[k] as int)
}

/// The positions of the names grouped by name.
fn group_positions(names: &Vec<String>) -> (r: Vec<usize>)
    ensures
        in_range(r@, names@.len() as int),
        as_ints(r@) == grouped_order(texts(names@), names@.len() as int),
{
    let ghost all = texts(names@);
    let mut order: Vec<usize> = Vec::new();
    let mut a: usize = 0;
    assert(as_ints(order@) =~= grouped_order(all, 0));
    while a < names.len()
        invariant
            a <= names@.len(),
            all == texts(names@),
            in_range(order@, names@.len() as int),
            as_ints(order@) == grouped_order(all, a as int),
        decreases names@.len() - a,
    {
        let mut leader = true;
        let mut j: usize = 0;
        while j < a
            invariant
                j <= a < names@.len(),
                all == texts(names@),
                leader == (forall|x: int| 0 <= x < j ==> (#[trigger] all[x]) != all[a as int]),
            decreases a - j,
        {
            if names[j] == names[a] {
                assert(all[j as int] == all[a as int]);
                leader = false;
            }
            j = j + 1;
        }
        if leader {
            let ghost before = as_ints(order@);
            let mut b: usize = 0;
            assert(as_ints(order@) =~= before + members(all, all[a as int], 0));
            while b < names.len()
                invariant
                    b <= names@.len(),
                    a < names@.len(),
                    all == texts(names@),
                    in_range(order@, names@.len() as int),
                    as_ints(order@) == before + members(all, all[a as int], b as int),
                decreases names@.len() - b,
            {
                if names[b] == names[a] {
                    assert(all[b as int] == all[a as int]);
                    let ghost so_far = as_ints(order@);
                    order.push(b);
                    assert(as_ints(order@) =~= so_far.push(b as int));
                    assert(as_ints(order@) =~= before + members(all, all[a as int], b + 1));
                }
                b = b + 1;
            }
        }
        a = a + 1;
    }
    order
}


/// Whether `found` holds, in order, the items at the positions `at` of
/// the entries.
pub open spec fn found_at<T: CanDisambiguate>(found: Seq<&Disambiguated<T>>, entries: Seq<EntryView<T>>, at: Seq<int>) -> bool {
    &&& found.len() == at.len()
    &&& forall|k: int| 0 <= k < at.len() ==> 0 <= #[trigger] at[k] < entries.len()
    &&& forall|k: int| 0 <= k < found.len() ==> shows(#[trigger] found[k], entries[at[k]])
}

/// What a lookup finds while the index is being filled: the matches among
/// the rows before `k`, and those of the row at `k` as far as its first
/// `m` prefixes give them.
spec fn partial_matches(rows: Seq<RowView>, name: Seq<char>, prefix: Seq<char>, k: int, m: int) -> Seq<int> {
    if 0 <= k < rows.len() && rows[k].name == name {
        matches_of(rows, name, prefix, k) + repeated(k, occurrences(rows[k].prefixes.take(m), prefix))
    } else {
        matches_of(rows, name, prefix, k)
    }
}

/// Whether the index holds, for every name and prefix, what a lookup
/// finds so far, and nothing where a lookup finds nothing.
spec fn index_holds(
    lists: Map<(Seq<char>, Seq<char>), Seq<usize>>,
    rows: Seq<RowView>,
    k: int,
    m: int,
) -> bool {
    forall|name: Seq<char>, prefix: Seq<char>|
        {
            let found = #[trigger] partial_matches(rows, name, prefix, k, m);
            if found.len() == 0 {
                !lists.dom().contains((name, prefix))
            } else {
                lists.dom().contains((name, prefix)) && as_ints(lists[(name, prefix)]) == found
            }
        }
}

/// The rows that stand for kept names and prefix lists.
spec fn rows_of(names: Seq<String>, prefix_lists: Seq<Vec<String>>) -> Seq<RowView> {
    Seq::new(names.len(), |k: int| RowView { name: names[k]@, prefixes: texts(prefix_lists[k]@) })
}

/// A lookup finds positions of rows only, among the first `n` only
/// positions below `n`.
proof fn lemma_matches_in_range(rows: Seq<RowView>, name: Seq<char>, prefix: Seq<char>, n: int)
    ensures
        forall|i: int|
            0 <= i < matches_of(rows, name, prefix, n).len() ==> 0 <= #[trigger] matches_of(
                rows,
                name,
                prefix,
                n,
            )[i] < n,
    decreases n,
{
    if n > 0 {
        lemma_matches_in_range(rows, name, prefix, n - 1);
        let before = matches_of(rows, name, prefix, n - 1);
        let all = matches_of(rows, name, prefix, n);
        assert forall|i: int| 0 <= i < all.len() implies 0 <= #[trigger] all[i] < n by {
            if i < before.len() {
                assert(all[i] == before[i]);
            }
        }
    }
}

/// Which of the items are kept, and the names and prefixes of those that
/// are: of several items with one full name only the first is kept.
fn keep_first(
    names: &Vec<String>,
    fulls: &Vec<String>,
    modules: &Vec<String>,
    Ghost(items): Ghost<Seq<ItemView>>,
) -> (r: (Vec<bool>, Vec<String>, Vec<Vec<String>>))
    requires
        names@.len() == items.len(),
        fulls@.len() == items.len(),
        modules@.len() == items.len(),
        forall|k: int|
            0 <= k < items.len() ==> (#[trigger] items[k]) == (ItemView {
                name: names@[k]@,
                full_name: fulls@[k]@,
                module_name: modules@[k]@,
            }),
    ensures
        r.0@.len() == items.len(),
        forall|k: int| 0 <= k < items.len() ==> (#[trigger] r.0@[k]) == is_kept(items, k),
        r.1@.len() == r.2@.len(),
        rows_of(r.1@, r.2@) == kept_rows(items, items.len() as int),
{
    let count = names.len();
    let mut seen = set_new();
    let mut kept: Vec<bool> = Vec::new();
    let mut kept_names: Vec<String> = Vec::new();
    let mut prefix_lists: Vec<Vec<String>> = Vec::new();
    let mut i: usize = 0;
    assert(rows_of(kept_names@, prefix_lists@) =~= kept_rows(items, 0));
    while i < count
        invariant
            i <= count,
            count == items.len(),
            names@.len() == count,
            fulls@.len() == count,
            modules@.len() == count,
            forall|k: int|
                0 <= k < count ==> (#[trigger] items[k]) == (ItemView {
                    name: names@[k]@,
                    full_name: fulls@[k]@,
                    module_name: modules@[k]@,
                }),
            forall|t: Seq<char>|
                set_texts(seen).contains(t) <==> exists|j: int|
                    0 <= j < i && (#[trigger] items[j]).full_name == t,
            kept@.len() == i,
            forall|k: int| 0 <= k < i ==> (#[trigger] kept@[k]) == is_kept(items, k),
            kept_names@.len() == prefix_lists@.len(),
            rows_of(kept_names@, prefix_lists@) == kept_rows(items, i as int),
        decreases count - i,
    {
        let ghost before = rows_of(kept_names@, prefix_lists@);
        let ghost seen_before = set_texts(seen);
        let duplicate = set_contains(&seen, fulls[i].as_str());
        assert(items[i as int].full_name == fulls@[i as int]@);
        assert(!duplicate == is_kept(items, i as int)) by {
            if duplicate {
                let j = choose|j: int| 0 <= j < i && (#[trigger] items[j]).full_name == fulls@[i as int]@;
                assert(items[j].full_name == items[i as int].full_name);
            }
        }
        if !duplicate {
            set_insert(&mut seen, fulls[i].clone());
            kept_names.push(names[i].clone());
            prefix_lists.push(prefixes_for(fulls[i].as_str(), modules[i].as_str()));
            assert(rows_of(kept_names@, prefix_lists@) =~= before.push(
                RowView { name: items[i as int].name, prefixes: prefixes_of(items[i as int]) },
            ));
        }
        kept.push(!duplicate);
        assert forall|t: Seq<char>| set_texts(seen).contains(t) <==> exists|j: int|
            0 <= j < i + 1 && (#[trigger] items[j]).full_name == t by {
            if set_texts(seen).contains(t) {
                if seen_before.contains(t) {
                    let j = choose|j: int| 0 <= j < i && (#[trigger] items[j]).full_name == t;
                    assert(0 <= j < i + 1 && items[j].full_name == t);
                } else {
                    assert(items[i as int].full_name == t);
                }
            }
            if exists|j: int| 0 <= j < i + 1 && (#[trigger] items[j]).full_name == t {
                let j = choose|j: int| 0 <= j < i + 1 && (#[trigger] items[j]).full_name == t;
                if j < i {
                    assert(seen_before.contains(t));
                }
            }
        }
        i = i + 1;
    }
    (kept, kept_names, prefix_lists)
}

/// The index of the positions of the rows by name and prefix.
fn build_index(kept_names: &Vec<String>, prefix_lists: &Vec<Vec<String>>) -> (by_name: PairIndex)
    requires
        kept_names@.len() == prefix_lists@.len(),
    ensures
        index_holds(
            map_lists(by_name),
            rows_of(kept_names@, prefix_lists@),
            kept_names@.len() as int,
            0,
        ),
{
    let ghost rows = rows_of(kept_names@, prefix_lists@);
    let entries = kept_names.len();
    let mut by_name = map_new();
    let mut k: usize = 0;
    assert(index_holds(map_lists(by_name), rows, 0, 0));
    while k < entries
        invariant
            k <= entries,
            entries == rows.len(),
            kept_names@.len() == entries,
            prefix_lists@.len() == entries,
            rows == rows_of(kept_names@, prefix_lists@),
            index_holds(map_lists(by_name), rows, k as int, 0),
        decreases entries - k,
    {
        let list = &prefix_lists[k];
        let ghost prefixes = rows[k as int].prefixes;
        assert(prefixes == texts(list@));
        let mut m: usize = 0;
        assert(prefixes.take(0) =~= Seq::<Seq<char>>::empty());
        while m < list.len()
            invariant
                m <= list@.len(),
                k < entries,
                entries == rows.len(),
                kept_names@.len() == entries,
                rows == rows_of(kept_names@, prefix_lists@),
                prefixes == rows[k as int].prefixes,
                prefixes == texts(list@),
                index_holds(map_lists(by_name), rows, k as int, m as int),
            decreases list@.len() - m,
        {
            let ghost lists_before = map_lists(by_name);
            let name = kept_names[k].as_str();
            let prefix = list[m].as_str();
            assert(name@ == rows[k as int].name);
            assert(prefix@ == prefixes[m as int]);
            let ghost found_before = partial_matches(rows, name@, prefix@, k as int, m as int);
            let mut positions = match map_remove(&mut by_name, name, prefix) {
                Some(positions) => positions,
                None => Vec::new(),
            };
            let ghost positions_before = positions@;
            assert(as_ints(positions_before) =~= found_before);
            positions.push(k);
            assert(as_ints(positions@) =~= found_before.push(k as int));
            map_insert(&mut by_name, name.to_owned(), prefix.to_owned(), positions);
            proof {
                let lists = map_lists(by_name);
                let next = prefixes.take(m + 1);
                assert(next.drop_last() =~= prefixes.take(m as int));
                assert(next.last() == prefix@);
                assert(lists =~= lists_before.insert((name@, prefix@), positions@));
                assert forall|n2: Seq<char>, p2: Seq<char>|
                    {
                        let found = #[trigger] partial_matches(rows, n2, p2, k as int, m + 1);
                        if found.len() == 0 {
                            !lists.dom().contains((n2, p2))
                        } else {
                            lists.dom().contains((n2, p2)) && as_ints(lists[(n2, p2)]) == found
                        }
                    } by {
                    let old_found = partial_matches(rows, n2, p2, k as int, m as int);
                    let new_found = partial_matches(rows, n2, p2, k as int, m + 1);
                    if n2 == name@ && p2 == prefix@ {
                        assert(new_found =~= old_found.push(k as int));
                    } else {
                        assert((n2, p2) != (name@, prefix@));
                        assert(new_found =~= old_found);
                    }
                }
            }
            m = m + 1;
        }
        proof {
            assert(prefixes.take(list@.len() as int) =~= prefixes);
            let lists = map_lists(by_name);
            assert forall|n2: Seq<char>, p2: Seq<char>|
                {
                    let found = #[trigger] partial_matches(rows, n2, p2, k + 1, 0);
                    if found.len() == 0 {
                        !lists.dom().contains((n2, p2))
                    } else {
                        lists.dom().contains((n2, p2)) && as_ints(lists[(n2, p2)]) == found
                    }
                } by {
                let old_found = partial_matches(rows, n2, p2, k as int, list@.len() as int);
                let found = partial_matches(rows, n2, p2, k + 1, 0);
                if k + 1 < rows.len() {
                    assert(rows[k + 1].prefixes.take(0) =~= Seq::<Seq<char>>::empty());
                }
                assert(found =~= matches_of(rows, n2, p2, k + 1));
                assert(found =~= old_found);
            }
        }
        k = k + 1;
    }
    by_name
}

/// For each row, the prefix that tells it apart.
fn choose_prefixes(kept_names: &Vec<String>, prefix_lists: &Vec<Vec<String>>, by_name: &PairIndex) -> (chosen:
    Vec<String>)
    requires
        kept_names@.len() == prefix_lists@.len(),
        forall|k: int| 0 <= k < prefix_lists@.len() ==> (#[trigger] prefix_lists@[k])@.len() > 0,
        index_holds(
            map_lists(*by_name),
            rows_of(kept_names@, prefix_lists@),
            kept_names@.len() as int,
            0,
        ),
    ensures
        chosen@.len() == kept_names@.len(),
        forall|x: int|
            0 <= x < chosen@.len() ==> (#[trigger] chosen@[x])@ == chosen_in(
                rows_of(kept_names@, prefix_lists@),
                x,
                rows_of(kept_names@, prefix_lists@)[x].prefixes.len() as int,
            ),
{
    let ghost rows = rows_of(kept_names@, prefix_lists@);
    let entries = kept_names.len();
    let mut chosen: Vec<String> = Vec::new();
    let mut k: usize = 0;
    while k < entries
        invariant
            k <= entries,
            entries == rows.len(),
            kept_names@.len() == entries,
            prefix_lists@.len() == entries,
            rows == rows_of(kept_names@, prefix_lists@),
            forall|x: int| 0 <= x < prefix_lists@.len() ==> (#[trigger] prefix_lists@[x])@.len() > 0,
            index_holds(map_lists(*by_name), rows, entries as int, 0),
            chosen@.len() == k,
            forall|x: int|
                0 <= x < k ==> (#[trigger] chosen@[x])@ == chosen_in(
                    rows,
                    x,
                    rows[x].prefixes.len() as int,
                ),
        decreases entries - k,
    {
        let list = &prefix_lists[k];
        assert(rows[k as int].prefixes == texts(list@));
        assert(texts(list@).len() == list@.len());
        assert(texts(list@)[0] == list@[0]@);
        let mut pick = list[0].clone();
        let mut m: usize = 0;
        while m < list.len()
            invariant
                m <= list@.len(),
                k < entries,
                entries == rows.len(),
                kept_names@.len() == entries,
                rows == rows_of(kept_names@, prefix_lists@),
                rows[k as int].prefixes == texts(list@),
                index_holds(map_lists(*by_name), rows, entries as int, 0),
                pick@ == chosen_in(rows, k as int, m as int),
            decreases list@.len() - m,
        {
            assert(texts(list@)[m as int] == list@[m as int]@);
            assert(kept_names@[k as int]@ == rows[k as int].name);
            let ghost found = partial_matches(
                rows,
                rows[k as int].name,
                list@[m as int]@,
                entries as int,
                0,
            );
            assert(found == matches_of(rows, rows[k as int].name, list@[m as int]@, rows.len() as int));
            let unique = match map_get(by_name, kept_names[k].as_str(), list[m].as_str()) {
                Some(positions) => positions.len() == 1,
                None => false,
            };
            assert(unique == (found.len() == 1)) by {
                if found.len() > 0 {
                    let positions = map_lists(*by_name)[(rows[k as int].name, list@[m as int]@)];
                    assert(as_ints(positions).len() == positions.len());
                }
            }
            if unique {
                pick = list[m].clone();
            }
            m = m + 1;
        }
        chosen.push(pick);
        k = k + 1;
    }
    chosen
}

impl<T: CanDisambiguate> DisambiguatedSet<T> {
    /// The names stand beside their items, the order of presentation is
    /// the grouped one, and the index holds what a lookup finds.
    pub closed spec fn wf(&self) -> bool {
        &&& self.names@.len() == self.list@.len()
        &&& in_range(self.order@, self.list@.len() as int)
        &&& as_ints(self.order@) == grouped_order(texts(self.names@), self.names@.len() as int)
        &&& index_holds(map_lists(self.by_name), outline(self@), self@.len() as int, 0)
    }

    /// The order in which `all_commands` presents the items: grouped by
    /// name.
    pub open spec fn presentation(&self) -> Seq<int> {
        grouped_order(entry_names(self@), self@.len() as int)
    }

    /// Makes a set of the given values, which say themselves what they
    /// are called. Each value is asked once for each of its names; the set
    /// is the one that `from_named` makes of the values with the names they
    /// gave.
    pub fn new(values: Vec<T>) -> (r: Self)
        ensures
            r.wf(),
            exists|named: Seq<Named<T>>|
                named.len() == values@.len() && (forall|i: int|
                    0 <= i < named.len() ==> (#[trigger] named[i]).value == values@[i]) && r@ == built(
                    named,
                ),
    {
        let ghost source = values@;
        let mut named: Vec<Named<T>> = Vec::new();
        for value in it: values
            invariant
                it.seq() == source,
                named@.len() == it.index(),
                forall|i: int| 0 <= i < named@.len() ==> (#[trigger] named@[i]).value == source[i],
        {
            let name = value.name().to_owned();
            let full_name = value.full_name().to_owned();
            let module_name = value.module_name().to_owned();
            named.push(Named { value, name, full_name, module_name });
        }
        let ghost witness = named@;
        let set = Self::from_named(named);
        assert(witness.len() == source.len() && (forall|i: int|
            0 <= i < witness.len() ==> (#[trigger] witness[i]).value == source[i]) && set@ == built(
            witness,
        ));
        set
    }

    /// Makes a set of the given values with their names. Of several
    /// values with one full name only the first is kept. Each kept value
    /// gets the prefixes it answers to, and the prefix that tells it apart
    /// from the other kept values of its name.
    pub fn from_named(values: Vec<Named<T>>) -> (r: Self)
        ensures
            r.wf(),
            r@ == built(values@),
    {
        let ghost source = values@;
        let ghost items = item_views(source);
        let (names, fulls, modules) = lowered(&values);
        let count = values.len();
        let (kept, kept_names, prefix_lists) = keep_first(&names, &fulls, &modules, Ghost(items));
        let ghost rows = rows_of(kept_names@, prefix_lists@);
        let entries = kept_names.len();
        assert forall|k: int| 0 <= k < prefix_lists@.len() implies (#[trigger] prefix_lists@[k])@.len() > 0 by {
            lemma_rows_have_prefixes(items, count as int, k);
            assert(rows[k].prefixes == texts(prefix_lists@[k]@));
        }
        let by_name = build_index(&kept_names, &prefix_lists);
        let chosen = choose_prefixes(&kept_names, &prefix_lists, &by_name);
        // the items themselves
        let mut list: Vec<Disambiguated<T>> = Vec::new();
        let mut i: usize = 0;
        assert(kept_values(source, 0) =~= Seq::<T>::empty());
        assert(kept_rows(items, 0) =~= Seq::<RowView>::empty());
        for named in it: values
            invariant
                it.seq() == source,
                items == item_views(source),
                i == it.index(),
                count == source.len(),
                kept@.len() == count,
                forall|x: int| 0 <= x < count ==> (#[trigger] kept@[x]) == is_kept(items, x),
                entries == rows.len(),
                rows == kept_rows(items, count as int),
                rows == rows_of(kept_names@, prefix_lists@),
                kept_names@.len() == entries,
                prefix_lists@.len() == entries,
                chosen@.len() == entries,
                forall|x: int|
                    0 <= x < entries ==> (#[trigger] chosen@[x])@ == chosen_in(
                        rows,
                        x,
                        rows[x].prefixes.len() as int,
                    ),
                list@.len() <= entries,
                list@.len() == kept_rows(items, i as int).len(),
                list@.len() == kept_values(source, i as int).len(),
                forall|x: int|
                    0 <= x < list@.len() ==> (#[trigger] list@[x]).value == kept_values(source, i as int)[x]
                        && list@[x].disambiguated_prefix@ == chosen@[x]@ && texts(list@[x].allowed_prefixes@)
                        == rows[x].prefixes,
        {
            proof {
                lemma_kept_rows_grow(items, i as int + 1, count as int);
            }
            if kept[i] {
                let at = list.len();
                assert(at < entries);
                let entry = Disambiguated {
                    value: named.value,
                    disambiguated_prefix: chosen[at].clone(),
                    allowed_prefixes: clone_strings(&prefix_lists[at]),
                };
                list.push(entry);
            }
            i = i + 1;
        }
        let order = group_positions(&kept_names);
        let set = DisambiguatedSet { list, names: kept_names, order, by_name };
        proof {
            lemma_kept_rows_grow(items, count as int, count as int);
            assert(set@ =~= built(source));
            assert(outline(set@) =~= rows);
        }
        set
    }

    /// The number of items in the set.
    pub fn len(&self) -> (r: usize)
        ensures
            r == self@.len(),
    {
        self.list.len()
    }

    /// All items of the set, grouped by name: the groups in the order in
    /// which their names first appear, and each group in the order of its
    /// items.
    pub fn all_commands(&self) -> (r: Vec<&Disambiguated<T>>)
        requires
            self.wf(),
        ensures
            found_at(r@, self@, self.presentation()),
    {
        assert(entry_names(self@) =~= texts(self.names@));
        let mut all: Vec<&Disambiguated<T>> = Vec::new();
        let mut k: usize = 0;
        while k < self.order.len()
            invariant
                k <= self.order@.len(),
                self.wf(),
                all@.len() == k,
                forall|x: int|
                    0 <= x < k ==> shows(#[trigger] all@[x], self@[self.order@[x] as int]),
            decreases self.order@.len() - k,
        {
            let at = self.order[k];
            assert(self.order@[k as int] < self.list@.len());
            all.push(&self.list[at]);
            k = k + 1;
        }
        let ghost order = self.presentation();
        assert(order == as_ints(self.order@));
        assert forall|x: int| 0 <= x < order.len() implies 0 <= #[trigger] order[x] < self@.len() by {
            assert(self.order@[x] < self.list@.len());
        }
        assert forall|x: int| 0 <= x < all@.len() implies shows(#[trigger] all@[x], self@[order[x]]) by {
            assert(order[x] == self.order@[x] as int);
        }
        all
    }

    /// The items that a name stands for. The name may have a prefix
    /// before a colon; without one, the empty prefix is meant. Found are
    /// the items of that name that answer to the prefix, in the order of
    /// the set. Upper and lower case make no difference.
    pub fn resolve(&self, raw_name: &str) -> (r: Result<Vec<&Disambiguated<T>>, ResolveError>)
        requires
            self.wf(),
        ensures
            match split_name(ascii_lower(raw_name@)) {
                None => r matches Err(e) && e == ResolveError::TooManyColons,
                Some((prefix, name)) => r matches Ok(found) && found_at(
                    found@,
                    self@,
                    matches_of(outline(self@), name, prefix, self@.len() as int),
                ),
            },
    {
        let lowered_name = to_ascii_lowercase(raw_name);
        let (prefix, name) = match split_lowered(lowered_name.as_str()) {
            Some(parts) => parts,
            None => {
                return Err(ResolveError::TooManyColons);
            },
        };
        let ghost entries = self@;
        let ghost at = matches_of(outline(entries), name@, prefix@, entries.len() as int);
        assert(at == partial_matches(outline(entries), name@, prefix@, entries.len() as int, 0));
        proof {
            lemma_matches_in_range(outline(entries), name@, prefix@, entries.len() as int);
        }
        let mut found: Vec<&Disambiguated<T>> = Vec::new();
        match map_get(&self.by_name, name.as_str(), prefix.as_str()) {
            None => {},
            Some(positions) => {
                assert(as_ints(positions@) == at);
                let mut k: usize = 0;
                while k < positions.len()
                    invariant
                        k <= positions@.len(),
                        self.wf(),
                        entries == self@,
                        as_ints(positions@) == at,
                        forall|x: int| 0 <= x < at.len() ==> 0 <= #[trigger] at[x] < entries.len(),
                        found@.len() == k,
                        forall|x: int| 0 <= x < k ==> shows(#[trigger] found@[x], entries[at[x]]),
                    decreases positions@.len() - k,
                {
                    let index = positions[k];
                    assert(as_ints(positions@)[k as int] == index);
                    assert(0 <= at[k as int] < entries.len());
                    found.push(&self.list[index]);
                    k = k + 1;
                }
                assert(found@.len() == as_ints(positions@).len());
            },
        }
        Ok(found)
    }
}

/// Every kept item has at least two prefixes.
proof fn lemma_rows_have_prefixes(items: Seq<ItemView>, n: int, k: int)
    requires
        0 <= k < kept_rows(items, n).len(),
    ensures
        kept_rows(items, n)[k].prefixes.len() >= 2,
    decreases n,
{
    if n > 0 {
        if is_kept(items, n - 1) && k == kept_rows(items, n - 1).len() {
            lemma_prefixes_start_with_full_name(items[n - 1]);
        } else {
            lemma_rows_have_prefixes(items, n - 1, k);
        }
    }
}

/// The kept rows and the kept values of the first `i` items are the first
/// of those of the first `n`, and there are as many rows as values.
proof fn lemma_kept_rows_grow(items: Seq<ItemView>, i: int, n: int)
    requires
        0 <= i <= n,
    ensures
        kept_rows(items, i).len() <= kept_rows(items, n).len(),
        forall|x: int| 0 <= x < kept_rows(items, i).len() ==> kept_rows(items, i)[x] == kept_rows(items, n)[x],
    decreases n - i,
{
    if i < n {
        lemma_kept_rows_grow(items, i, n - 1);
    }
}

/// Splits a looked-up text at its colon into prefix and name.
fn split_lowered(text: &str) -> (r: Option<(String, String)>)
    ensures
        match r {
            Some((prefix, name)) => split_name(text@) == Some((prefix@, name@)),
            None => split_name(text@) is None,
        },
{
    let total = text.unicode_len();
    let mut head = String::new();
    let mut tail = String::new();
    let mut seen: u8 = 0;
    let mut k: usize = 0;
    for c in it: text.chars()
        invariant
            it.seq() == text@,
            total == text@.len(),
            k == it.index(),
            seen <= 2,
            seen < 2 ==> seen == colons(text@, k as int).len(),
            seen == 2 ==> colons(text@, k as int).len() >= 2,
            seen == 0 ==> head@ == text@.take(k as int) && tail@ == Seq::<char>::empty(),
            seen == 1 ==> 0 <= colons(text@, k as int)[0] < k && head@ == text@.take(
                colons(text@, k as int)[0],
            ) && tail@ == text@.subrange(colons(text@, k as int)[0] + 1, k as int),
    {
        if c == ':' {
            if seen == 0 {
                assert(tail@ =~= text@.subrange(k + 1, k + 1));
            }
            if seen < 2 {
                seen = seen + 1;
            }
        } else if seen == 0 {
            head.push(c);
            assert(head@ =~= text@.take(k + 1));
        } else if seen == 1 {
            tail.push(c);
            assert(tail@ =~= text@.subrange(colons(text@, k as int)[0] + 1, k + 1));
        }
        k = k + 1;
    }
    if seen >= 2 {
        None
    } else if seen == 0 {
        assert(text@.take(text@.len() as int) =~= text@);
        Some((String::new(), head))
    } else {
        assert(text@.subrange(colons(text@, k as int)[0] + 1, k as int) =~= text@.skip(
            colons(text@, k as int)[0] + 1,
        ));
        Some((head, tail))
    }
}


} // verus!
