//! Which tables an operation touches: the selection policy and its
//! precedence rules.

use crate::schema::{SchemaRegistry, TableSchema};
use crate::text::{contains_text, lower_all, lowercase_of, lowered, texts, to_lowercase};
use vstd::multiset::Multiset;
use vstd::prelude::*;
use vstd::seq_lib::to_multiset_build;

verus! {

/// The name that stands for every table.
pub open spec fn wildcard() -> Seq<char> {
    "all"@
}

/// Whether a table is selected, with every name in lower case: `key` is
/// the table's name, `included` and `excluded` are the names of the
/// policy. In order: the wildcard among the included names selects every
/// table; else the wildcard among the excluded names leaves only the
/// tables that are included by name; else a table is selected unless it is
/// excluded by name, or is dynamic under `update_only`, and a table
/// included by name is selected anyway.
pub open spec fn chosen(
    included: Seq<Seq<char>>,
    excluded: Seq<Seq<char>>,
    update_only: bool,
    key: Seq<char>,
    is_static: bool,
) -> bool {
    if included.contains(wildcard()) {
        true
    } else if excluded.contains(wildcard()) {
        included.contains(key)
    } else {
        included.contains(key) || !(excluded.contains(key) || (!is_static && update_only))
    }
}

/// Whether a table is selected, with every name in lower case.
pub fn is_chosen(
    included: &Vec<String>,
    excluded: &Vec<String>,
    update_only: bool,
    key: &str,
    is_static: bool,
) -> (r: bool)
    ensures
        r == chosen(texts(included@), texts(excluded@), update_only, key@, is_static),
{
    if contains_text(included, "all") {
        true
    } else if contains_text(excluded, "all") {
        contains_text(included, key)
    } else {
        contains_text(included, key) || !(contains_text(excluded, key) || (!is_static
            && update_only))
    }
}

/// Which tables to touch, as plain values: the names that are included and
/// excluded, as they were written, and whether dynamic tables are left alone.
pub struct PolicyView {
    pub include_tables: Seq<Seq<char>>,
    pub exclude_tables: Seq<Seq<char>>,
    pub update_only: bool,
}

impl PolicyView {
    /// The wildcard is among the included names.
    pub open spec fn includes_all(self) -> bool {
        lowered(self.include_tables).contains(wildcard())
    }

    /// The wildcard is among the excluded names.
    pub open spec fn excludes_all(self) -> bool {
        lowered(self.exclude_tables).contains(wildcard())
    }

    /// The table `name` is listed under the included names.
    pub open spec fn names_included(self, name: Seq<char>) -> bool {
        lowered(self.include_tables).contains(lowercase_of(name))
    }

    /// Whether the policy selects the table `s`: whether it is chosen with
    /// its name and the names of the policy in lower case.
    pub open spec fn selects(self, s: TableSchema) -> bool {
        chosen(
            lowered(self.include_tables),
            lowered(self.exclude_tables),
            self.update_only,
            lowercase_of(s.name@),
            s.is_static,
        )
    }
}

/// Which tables to touch. Names are compared without regard to case.
/// `update_only` is set for an operation that must leave dynamic tables
/// alone: an import, or an export of static content only.
#[derive(Debug, PartialEq, Eq)]
pub struct SelectionPolicy {
    pub include_tables: Vec<String>,
    pub exclude_tables: Vec<String>,
    pub update_only: bool,
}

impl View for SelectionPolicy {
    type V = PolicyView;

    open spec fn view(&self) -> PolicyView {
        PolicyView {
            include_tables: texts(self.include_tables@),
            exclude_tables: texts(self.exclude_tables@),
            update_only: self.update_only,
        }
    }
}

impl SelectionPolicy {
    pub fn new(include_tables: Vec<String>, exclude_tables: Vec<String>, update_only: bool) -> (r:
        SelectionPolicy)
        ensures
            r.include_tables == include_tables,
            r.exclude_tables == exclude_tables,
            r.update_only == update_only,
    {
        SelectionPolicy { include_tables, exclude_tables, update_only }
    }
}

/// The tables of `all` on one side of the policy, in the order of `all`:
/// the selected ones where `wanted` holds, the others where it does not.
pub open spec fn side(all: Seq<TableSchema>, policy: PolicyView, wanted: bool) -> Seq<
    TableSchema,
> {
    all.filter(|s: TableSchema| policy.selects(s) == wanted)
}

/// The tables of `all` that the policy selects, in the order of `all`.
pub open spec fn selection(all: Seq<TableSchema>, policy: PolicyView) -> Seq<TableSchema> {
    side(all, policy, true)
}

/// The tables of `all` that the policy does not select, in the order of `all`.
pub open spec fn rejection(all: Seq<TableSchema>, policy: PolicyView) -> Seq<TableSchema> {
    side(all, policy, false)
}

/// The tables that a sequence of references points to.
pub open spec fn targets(r: Seq<&TableSchema>) -> Seq<TableSchema> {
    Seq::new(r.len(), |i: int| *r[i])
}

/// The first `n` tables of `all` on one side of a choice by names in
/// lower case, in order: the table at `i` goes by the name `keys[i]`, and a
/// table without a name is on neither side.
pub open spec fn side_by_keys(
    all: Seq<TableSchema>,
    keys: Seq<Seq<char>>,
    included: Seq<Seq<char>>,
    excluded: Seq<Seq<char>>,
    update_only: bool,
    wanted: bool,
    n: int,
) -> Seq<TableSchema>
    decreases n,
{
    if n <= 0 {
        Seq::<TableSchema>::empty()
    } else {
        let before = side_by_keys(all, keys, included, excluded, update_only, wanted, n - 1);
        if n <= all.len() && n <= keys.len() && chosen(
            included,
            excluded,
            update_only,
            keys[n - 1],
            all[n - 1].is_static,
        ) == wanted {
            before.push(all[n - 1])
        } else {
            before
        }
    }
}

/// The tables of `all` on the `wanted` side of a choice by names in lower
/// case, in order: `keys` holds the name of each table, `included` and
/// `excluded` the names of the policy.
pub fn pick_by_keys<'a>(
    all: &'a Vec<TableSchema>,
    keys: &Vec<String>,
    included: &Vec<String>,
    excluded: &Vec<String>,
    update_only: bool,
    wanted: bool,
) -> (r: Vec<&'a TableSchema>)
    ensures
        targets(r@) == side_by_keys(
            all@,
            texts(keys@),
            texts(included@),
            texts(excluded@),
            update_only,
            wanted,
            all@.len() as int,
        ),
{
    let mut out: Vec<&'a TableSchema> = Vec::new();
    let mut i: usize = 0;
    assert(targets(out@) =~= Seq::<TableSchema>::empty());
    while i < all.len()
        invariant
            i <= all.len(),
            targets(out@) == side_by_keys(
                all@,
                texts(keys@),
                texts(included@),
                texts(excluded@),
                update_only,
                wanted,
                i as int,
            ),
        decreases all.len() - i,
    {
        let s: &'a TableSchema = &all[i];
        let ghost before = targets(out@);
        if i < keys.len() {
            assert(texts(keys@)[i as int] == keys@[i as int]@);
            if is_chosen(included, excluded, update_only, keys[i].as_str(), s.is_static())
                == wanted {
                out.push(s);
                assert(targets(out@) =~= before.push(*s));
            }
        }
        i += 1;
    }
    out
}

/// The lower-case names of the tables, in order.
pub open spec fn table_keys(all: Seq<TableSchema>) -> Seq<Seq<char>> {
    Seq::new(all.len(), |i: int| lowercase_of(all[i].name@))
}

/// A choice by the lower-case names of the tables and of the policy is the
/// side of the policy.
proof fn lemma_side_by_keys(all: Seq<TableSchema>, policy: PolicyView, wanted: bool, n: int)
    requires
        0 <= n <= all.len(),
    ensures
        side_by_keys(
            all,
            table_keys(all),
            lowered(policy.include_tables),
            lowered(policy.exclude_tables),
            policy.update_only,
            wanted,
            n,
        ) == side(all.take(n), policy, wanted),
    decreases n,
{
    let pred = |s: TableSchema| policy.selects(s) == wanted;
    reveal(Seq::filter);
    if n == 0 {
        assert(all.take(0) =~= Seq::<TableSchema>::empty());
    } else {
        lemma_side_by_keys(all, policy, wanted, n - 1);
        all.take(n - 1).lemma_filter_push(all[n - 1], pred);
        assert(all.take(n - 1).push(all[n - 1]) =~= all.take(n));
    }
}

/// The tables of `all` on the `wanted` side of the policy.
fn pick<'a>(all: &'a Vec<TableSchema>, policy: &SelectionPolicy, wanted: bool) -> (r: Vec<
    &'a TableSchema,
>)
    ensures
        targets(r@) == side(all@, policy@, wanted),
{
    let included: Vec<String> = lower_all(&policy.include_tables);
    let excluded: Vec<String> = lower_all(&policy.exclude_tables);
    let mut keys: Vec<String> = Vec::new();
    let mut i: usize = 0;
    while i < all.len()
        invariant
            i <= all.len(),
            keys@.len() == i,
            forall|j: int| 0 <= j < i ==> (#[trigger] keys@[j])@ == lowercase_of(all@[j].name@),
        decreases all.len() - i,
    {
        keys.push(to_lowercase(all[i].name.as_str()));
        i += 1;
    }
    proof {
        assert(texts(keys@) =~= table_keys(all@));
        lemma_side_by_keys(all@, policy@, wanted, all@.len() as int);
        assert(all@.take(all@.len() as int) =~= all@);
    }
    pick_by_keys(all, &keys, &included, &excluded, policy.update_only, wanted)
}

impl SchemaRegistry {
    /// The tables that the policy selects, in registration order.
    pub fn resolve_selection<'a>(&'a self, policy: &SelectionPolicy) -> (r: Vec<&'a TableSchema>)
        ensures
            targets(r@) == selection(self@, policy@),
    {
        pick(self.get_all_schemas(), policy, true)
    }

    /// The tables that the policy does not select, in registration order.
    pub fn excluded_schemas<'a>(&'a self, policy: &SelectionPolicy) -> (r: Vec<&'a TableSchema>)
        ensures
            targets(r@) == rejection(self@, policy@),
    {
        pick(self.get_all_schemas(), policy, false)
    }
}

/// A table stands in `side(all, policy, wanted)` exactly when it is a table
/// of `all` that the policy puts on that side.
pub proof fn lemma_side_contains(
    all: Seq<TableSchema>,
    policy: PolicyView,
    wanted: bool,
    s: TableSchema,
)
    ensures
        side(all, policy, wanted).contains(s) <==> all.contains(s) && policy.selects(s) == wanted,
{
    let pred = |t: TableSchema| policy.selects(t) == wanted;
    if side(all, policy, wanted).contains(s) {
        let i = choose|i: int| 0 <= i < all.filter(pred).len() && all.filter(pred)[i] == s;
        all.lemma_filter_pred(pred, i);
        all.lemma_filter_contains_rev(pred, s);
    }
    if all.contains(s) && policy.selects(s) == wanted {
        let i = choose|i: int| 0 <= i < all.len() && all[i] == s;
        all.lemma_filter_contains(pred, i);
    }
}

/// The two sides of a policy hold, between them, each table of `all` as
/// often as `all` does.
proof fn lemma_sides_make_whole(all: Seq<TableSchema>, policy: PolicyView)
    ensures
        selection(all, policy).to_multiset().add(rejection(all, policy).to_multiset())
            =~= all.to_multiset(),
    decreases all.len(),
{
    let yes = |t: TableSchema| policy.selects(t) == true;
    let no = |t: TableSchema| policy.selects(t) == false;
    reveal(Seq::filter);
    if all.len() == 0 {
        assert(all.filter(yes) =~= all);
        assert(all.filter(no) =~= all);
        assert(all.to_multiset() =~= Multiset::<TableSchema>::empty()) by {
            all.to_multiset_ensures();
        }
    } else {
        let rest = all.drop_last();
        let last = all.last();
        lemma_sides_make_whole(rest, policy);
        assert(rest.push(last) =~= all);
        to_multiset_build(rest, last);
        if policy.selects(last) {
            to_multiset_build(rest.filter(yes), last);
        } else {
            to_multiset_build(rest.filter(no), last);
        }
    }
}

/// Selection and rejection split the catalog exactly: each table of `all`
/// stands on one side and not on the other, neither side holds a table that
/// `all` does not, and the two sides together hold each table as often as
/// `all` does.
pub proof fn lemma_selection_partitions(all: Seq<TableSchema>, policy: PolicyView)
    ensures
        forall|s: TableSchema|
            all.contains(s) ==> (#[trigger] selection(all, policy).contains(s)) != rejection(
                all,
                policy,
            ).contains(s),
        forall|s: TableSchema|
            !all.contains(s) ==> !(#[trigger] selection(all, policy).contains(s)) && !rejection(
                all,
                policy,
            ).contains(s),
        selection(all, policy).to_multiset().add(rejection(all, policy).to_multiset())
            =~= all.to_multiset(),
        selection(all, policy).len() + rejection(all, policy).len() == all.len(),
{
    assert forall|s: TableSchema| all.contains(s) implies (#[trigger] selection(
        all,
        policy,
    ).contains(s)) != rejection(all, policy).contains(s) by {
        lemma_side_contains(all, policy, true, s);
        lemma_side_contains(all, policy, false, s);
    }
    assert forall|s: TableSchema| !all.contains(s) implies !(#[trigger] selection(
        all,
        policy,
    ).contains(s)) && !rejection(all, policy).contains(s) by {
        lemma_side_contains(all, policy, true, s);
        lemma_side_contains(all, policy, false, s);
    }
    lemma_sides_make_whole(all, policy);
    selection(all, policy).to_multiset_ensures();
    rejection(all, policy).to_multiset_ensures();
    all.to_multiset_ensures();
}

/// A filter that keeps every item of `all` gives `all` back.
proof fn lemma_filter_keeps_all(all: Seq<TableSchema>, pred: spec_fn(TableSchema) -> bool)
    requires
        forall|i: int| 0 <= i < all.len() ==> pred(#[trigger] all[i]),
    ensures
        all.filter(pred) == all,
    decreases all.len(),
{
    reveal(Seq::filter);
    if all.len() > 0 {
        let rest = all.drop_last();
        lemma_filter_keeps_all(rest, pred);
        assert(rest.push(all.last()) =~= all);
    }
}

/// Two filters that agree on every item of `all` give the same result.
proof fn lemma_filter_agrees(
    all: Seq<TableSchema>,
    p: spec_fn(TableSchema) -> bool,
    q: spec_fn(TableSchema) -> bool,
)
    requires
        forall|i: int| 0 <= i < all.len() ==> p(#[trigger] all[i]) == q(all[i]),
    ensures
        all.filter(p) == all.filter(q),
    decreases all.len(),
{
    reveal(Seq::filter);
    if all.len() > 0 {
        lemma_filter_agrees(all.drop_last(), p, q);
    }
}

/// With the wildcard among the included names, every table is selected,
/// whatever is excluded.
pub proof fn lemma_wildcard_selects_all(all: Seq<TableSchema>, policy: PolicyView)
    requires
        policy.includes_all(),
    ensures
        selection(all, policy) == all,
        rejection(all, policy).len() == 0,
{
    lemma_filter_keeps_all(all, |s: TableSchema| policy.selects(s) == true);
    lemma_selection_partitions(all, policy);
}

/// With the wildcard among the excluded names and not among the included
/// ones, the selected tables are exactly those that are included by name.
pub proof fn lemma_wildcard_excludes_others(all: Seq<TableSchema>, policy: PolicyView)
    requires
        policy.excludes_all(),
        !policy.includes_all(),
    ensures
        selection(all, policy) == all.filter(|s: TableSchema| policy.names_included(s.name@)),
        forall|s: TableSchema|
            #[trigger] selection(all, policy).contains(s) <==> all.contains(s)
                && policy.names_included(s.name@),
{
    lemma_filter_agrees(
        all,
        |s: TableSchema| policy.selects(s) == true,
        |s: TableSchema| policy.names_included(s.name@),
    );
    assert forall|s: TableSchema|
        #[trigger] selection(all, policy).contains(s) <==> all.contains(s)
            && policy.names_included(s.name@) by {
        lemma_side_contains(all, policy, true, s);
    }
}

/// A table that is included by name is selected: neither an exclusion by
/// name, nor the wildcard among the excluded names, nor the protection of
/// dynamic tables removes it.
pub proof fn lemma_named_table_survives(
    all: Seq<TableSchema>,
    policy: PolicyView,
    s: TableSchema,
)
    requires
        all.contains(s),
        policy.names_included(s.name@),
    ensures
        policy.selects(s),
        selection(all, policy).contains(s),
        !rejection(all, policy).contains(s),
{
    lemma_side_contains(all, policy, true, s);
    lemma_side_contains(all, policy, false, s);
}

/// Under `update_only` a dynamic table is selected only by name or by the
/// wildcard among the included names: nothing else brings it in.
pub proof fn lemma_dynamic_table_protected(policy: PolicyView, s: TableSchema)
    requires
        policy.update_only,
        !s.is_static,
        policy.selects(s),
    ensures
        policy.includes_all() || policy.names_included(s.name@),
{
}

} // verus!
