//! The path-attribute intern pool, the per-destination path lists and the
//! BGP table with its `walk`.
use vstd::prelude::*;
use std::collections::HashMap;
use hashbrown::HashSet;
use vstd::std_specs::iter::IteratorSpec;
use std::marker::PhantomData;
use crate::comms::{ReceivedModel, ReceivedRoutes};
use crate::decision::{decision_less, decision_of, lemma_decision_antisymmetric, DecisionProcessData};
use crate::message_types::{attr_views, Route};
use crate::octets::IpAddress;
use crate::path_attrs::{clone_attrs, PathAttr, PathAttrModel};

verus! {

broadcast use vstd::std_specs::hash::group_hash_axioms;

/// Attributes sorted by type code, as carried by an interned entry.
pub open spec fn sorted_by_code(s: Seq<PathAttrModel>) -> bool {
    forall|i: int, j: int| 0 <= i < j < s.len() ==> s[i].type_code <= s[j].type_code
}

/// Inserts `x` after every attribute whose type code is not above its own.
pub open spec fn insert_by_code(s: Seq<PathAttrModel>, x: PathAttrModel) -> Seq<PathAttrModel>
    decreases s.len(),
{
    if s.len() == 0 {
        seq![x]
    } else if s[0].type_code > x.type_code {
        seq![x] + s
    } else {
        seq![s[0]] + insert_by_code(s.drop_first(), x)
    }
}

/// Stable sort by type code.
pub open spec fn sort_by_code(s: Seq<PathAttrModel>) -> Seq<PathAttrModel>
    decreases s.len(),
{
    if s.len() == 0 {
        s
    } else {
        insert_by_code(sort_by_code(s.drop_last()), s.last())
    }
}

proof fn lemma_insert_by_code_at(s: Seq<PathAttrModel>, x: PathAttrModel, j: int)
    requires
        0 <= j <= s.len(),
        forall|i: int| 0 <= i < j ==> s[i].type_code <= x.type_code,
        j < s.len() ==> s[j].type_code > x.type_code,
    ensures
        insert_by_code(s, x) == s.insert(j, x),
    decreases j,
{
    if s.len() == 0 {
        assert(s.insert(j, x) =~= seq![x]);
    } else if j == 0 {
        assert(s.insert(0, x) =~= seq![x] + s);
    } else {
        lemma_insert_by_code_at(s.drop_first(), x, j - 1);
        assert(s.insert(j, x) =~= seq![s[0]] + s.drop_first().insert(j - 1, x));
    }
}

proof fn lemma_insert_by_code_elems(s: Seq<PathAttrModel>, x: PathAttrModel)
    ensures
        insert_by_code(s, x).len() == s.len() + 1,
        forall|i: int| 0 <= i < insert_by_code(s, x).len() ==> (#[trigger] insert_by_code(s, x)[i] == x
            || s.contains(insert_by_code(s, x)[i])),
    decreases s.len(),
{
    if s.len() > 0 && s[0].type_code <= x.type_code {
        lemma_insert_by_code_elems(s.drop_first(), x);
        let r = insert_by_code(s, x);
        assert forall|i: int| 0 <= i < r.len() implies (#[trigger] r[i] == x || s.contains(r[i])) by {
            if i > 0 {
                let t = insert_by_code(s.drop_first(), x);
                assert(r[i] == t[i - 1]);
                if t[i - 1] != x {
                    let k = choose|k: int| 0 <= k < s.drop_first().len() && s.drop_first()[k] == t[i - 1];
                    assert(s[k + 1] == r[i]);
                }
            } else {
                assert(s[0] == r[0]);
            }
        }
    } else if s.len() > 0 {
        let r = insert_by_code(s, x);
        assert forall|i: int| 0 <= i < r.len() implies (#[trigger] r[i] == x || s.contains(r[i])) by {
            if i > 0 {
                assert(r[i] == s[i - 1]);
            }
        }
    }
}

proof fn lemma_insert_by_code_sorted(s: Seq<PathAttrModel>, x: PathAttrModel)
    requires
        sorted_by_code(s),
    ensures
        sorted_by_code(insert_by_code(s, x)),
    decreases s.len(),
{
    if s.len() > 0 {
        if s[0].type_code > x.type_code {
        } else {
            let t = s.drop_first();
            lemma_insert_by_code_sorted(t, x);
            lemma_insert_by_code_elems(t, x);
            let r = insert_by_code(s, x);
            assert forall|i: int, j: int| 0 <= i < j < r.len() implies r[i].type_code <= r[j].type_code by {
                if i == 0 {
                    let y = insert_by_code(t, x)[j - 1];
                    if y != x {
                        let k = choose|k: int| 0 <= k < t.len() && t[k] == y;
                        assert(s[k + 1] == y);
                    }
                }
            }
        }
    }
}

/// Every list of attributes, once sorted for interning, is ordered by type code.
pub proof fn lemma_sort_by_code_sorted(s: Seq<PathAttrModel>)
    ensures
        sorted_by_code(sort_by_code(s)),
    decreases s.len(),
{
    if s.len() > 0 {
        lemma_sort_by_code_sorted(s.drop_last());
        lemma_insert_by_code_sorted(sort_by_code(s.drop_last()), s.last());
    }
}

proof fn lemma_insert_by_code_multiset(s: Seq<PathAttrModel>, x: PathAttrModel)
    ensures
        insert_by_code(s, x).to_multiset() == s.to_multiset().insert(x),
    decreases s.len(),
{
    broadcast use vstd::seq_lib::group_to_multiset_ensures;
    if s.len() == 0 {
        assert(seq![x] =~= Seq::<PathAttrModel>::empty().push(x));
    } else if s[0].type_code > x.type_code {
        vstd::seq_lib::lemma_multiset_commutative(seq![x], s);
        assert(seq![x] =~= Seq::<PathAttrModel>::empty().push(x));
        assert(s =~= seq![s[0]] + s.drop_first());
    } else {
        let t = s.drop_first();
        lemma_insert_by_code_multiset(t, x);
        vstd::seq_lib::lemma_multiset_commutative(seq![s[0]], insert_by_code(t, x));
        vstd::seq_lib::lemma_multiset_commutative(seq![s[0]], t);
        assert(s =~= seq![s[0]] + t);
        assert(seq![s[0]] =~= Seq::<PathAttrModel>::empty().push(s[0]));
    }
}

/// Sorting attributes for interning keeps exactly the attributes given: the
/// result is a permutation of the input.
pub proof fn lemma_sort_by_code_permutes(s: Seq<PathAttrModel>)
    ensures
        sort_by_code(s).to_multiset() == s.to_multiset(),
    decreases s.len(),
{
    broadcast use vstd::seq_lib::group_to_multiset_ensures;
    if s.len() > 0 {
        lemma_sort_by_code_permutes(s.drop_last());
        lemma_insert_by_code_multiset(sort_by_code(s.drop_last()), s.last());
        assert(s =~= s.drop_last().push(s.last()));
    }
}

fn insert_attr_sorted(out: &mut Vec<PathAttr>, x: PathAttr)
    ensures
        attr_views(final(out)@) == insert_by_code(attr_views(old(out)@), x@),
{
    let ghost s = attr_views(out@);
    let code = x.attr_type_code();
    let mut j: usize = 0;
    while j < out.len() && out[j].attr_type_code() <= code
        invariant
            j <= out@.len(),
            s == attr_views(out@),
            forall|i: int| 0 <= i < j ==> s[i].type_code <= code,
        decreases out@.len() - j,
    {
        j = j + 1;
    }
    let ghost xv = x@;
    out.insert(j, x);
    proof {
        lemma_insert_by_code_at(s, xv, j as int);
        assert(attr_views(out@) =~= s.insert(j as int, xv));
    }
}

/// Sorts attributes by type code, keeping the order of equal codes.
fn sort_attrs(v: Vec<PathAttr>) -> (r: Vec<PathAttr>)
    ensures
        attr_views(r@) == sort_by_code(attr_views(v@)),
{
    let mut out: Vec<PathAttr> = Vec::new();
    let mut rest = v;
    let ghost all = attr_views(rest@);
    let mut items: Vec<PathAttr> = Vec::new();
    // Reverse so that popping yields the attributes in their given order.
    while rest.len() > 0
        invariant
            attr_views(rest@) + attr_views(items@).reverse() == all,
        decreases rest@.len(),
    {
        let a = rest.pop().unwrap();
        let ghost av = a@;
        let ghost before_items = attr_views(items@);
        items.push(a);
        proof {
            assert(attr_views(items@) =~= before_items.push(av));
            assert(attr_views(items@).reverse() =~= seq![av] + before_items.reverse());
        }
    }
    assert(attr_views(items@).reverse() =~= all);
    while items.len() > 0
        invariant
            attr_views(out@) == sort_by_code(all.subrange(0, all.len() - attr_views(items@).len())),
            attr_views(items@).reverse() == all.subrange(all.len() - attr_views(items@).len(), all.len() as int),
            attr_views(items@).len() <= all.len(),
        decreases items@.len(),
    {
        let ghost before_items = attr_views(items@);
        let a = items.pop().unwrap();
        let ghost av = a@;
        proof {
            assert(before_items =~= attr_views(items@).push(av));
            let m = all.len() - before_items.len();
            assert(before_items.reverse()[0] == av);
            assert(all[m] == av);
            let pre = all.subrange(0, m + 1);
            assert(pre.drop_last() =~= all.subrange(0, m));
            assert(attr_views(items@).reverse() =~= before_items.reverse().drop_first());
        }
        insert_attr_sorted(&mut out, a);
    }
    assert(all.subrange(0, all.len() as int) =~= all);
    out
}

/// An interned entry: the decision summary and the attributes sorted by type code.
pub struct EntryModel {
    pub decision: DecisionProcessData,
    pub raw: Seq<PathAttrModel>,
}

#[derive(Debug, Clone, PartialEq, Eq, Hash)]
pub struct PathAttributeTableEntry {
    decision_data: DecisionProcessData,
    raw_path_attrs: Vec<PathAttr>,
}

impl View for PathAttributeTableEntry {
    type V = EntryModel;

    closed spec fn view(&self) -> EntryModel {
        EntryModel { decision: self.decision_data, raw: attr_views(self.raw_path_attrs@) }
    }
}

pub open spec fn entry_views(s: Seq<PathAttributeTableEntry>) -> Seq<EntryModel> {
    s.map_values(|e: PathAttributeTableEntry| e@)
}

impl PathAttributeTableEntry {
    /// An entry whose attributes are sorted by type code (equal codes keep
    /// their order), so that equal bundles make equal entries.
    pub fn new(decision_data: DecisionProcessData, raw_pas: Vec<PathAttr>) -> (r: Self)
        ensures
            r@ == (EntryModel { decision: decision_data, raw: sort_by_code(attr_views(raw_pas@)) }),
            sorted_by_code(r@.raw),
            r@.raw.to_multiset() == attr_views(raw_pas@).to_multiset(),
    {
        proof {
            lemma_sort_by_code_sorted(attr_views(raw_pas@));
            lemma_sort_by_code_permutes(attr_views(raw_pas@));
        }
        PathAttributeTableEntry { decision_data, raw_path_attrs: sort_attrs(raw_pas) }
    }

    pub fn get_pas(&self) -> (r: Vec<PathAttr>)
        ensures
            attr_views(r@) == self@.raw,
    {
        clone_attrs(self.raw_path_attrs.as_slice())
    }

    pub fn pas(&self) -> (r: &[PathAttr])
        ensures
            attr_views(r@) == self@.raw,
    {
        self.raw_path_attrs.as_slice()
    }

    pub fn decision(&self) -> (r: DecisionProcessData)
        ensures
            r == self@.decision,
    {
        self.decision_data
    }

    pub fn peer_id(&self) -> (r: u32)
        ensures
            r == self@.decision.peer_id,
    {
        self.decision_data.peer_id
    }

    /// Equality of the plain values.
    pub fn same_as(&self, other: &Self) -> (r: bool)
        ensures
            r == (self@ == other@),
    {
        if self.decision_data != other.decision_data {
            return false;
        }
        same_attrs(self.raw_path_attrs.as_slice(), other.raw_path_attrs.as_slice())
    }

    pub fn clone_entry(&self) -> (r: Self)
        ensures
            r@ == self@,
    {
        PathAttributeTableEntry {
            decision_data: self.decision_data,
            raw_path_attrs: clone_attrs(self.raw_path_attrs.as_slice()),
        }
    }
}

/// Equality of two attribute lists by their plain values.
pub fn same_attrs(a: &[PathAttr], b: &[PathAttr]) -> (r: bool)
    ensures
        r == (attr_views(a@) == attr_views(b@)),
{
    if a.len() != b.len() {
        assert(attr_views(a@).len() != attr_views(b@).len());
        return false;
    }
    let mut i: usize = 0;
    while i < a.len()
        invariant
            a@.len() == b@.len(),
            i <= a@.len(),
            forall|j: int| 0 <= j < i ==> a@[j]@ == b@[j]@,
        decreases a@.len() - i,
    {
        if !a[i].same_as(&b[i]) {
            assert(attr_views(a@)[i as int] != attr_views(b@)[i as int]);
            return false;
        }
        i = i + 1;
    }
    assert(attr_views(a@) =~= attr_views(b@));
    true
}

/// The intern pool: one entry for each distinct attribute bundle in use,
/// held in a `hashbrown::HashSet`.
#[verifier::external_body]
pub struct PathAttributeTable {
    table: HashSet<PathAttributeTableEntry>,
}

/// The entries a pool holds.
pub uninterp spec fn pool_entries(p: PathAttributeTable) -> Set<EntryModel>;

impl View for PathAttributeTable {
    type V = Set<EntryModel>;

    open spec fn view(&self) -> Set<EntryModel> {
        pool_entries(*self)
    }
}

/// Some entry of `keep` equals `x`.
pub open spec fn listed(keep: Seq<PathAttributeTableEntry>, x: EntryModel) -> bool {
    exists|i: int| 0 <= i < keep.len() && (#[trigger] keep[i])@ == x
}

/// Whether an entry equal to `e` is in `keep`.
pub fn is_listed(keep: &Vec<PathAttributeTableEntry>, e: &PathAttributeTableEntry) -> (r: bool)
    ensures
        r == listed(keep@, e@),
{
    let mut i: usize = 0;
    while i < keep.len()
        invariant
            i <= keep@.len(),
            forall|j: int| 0 <= j < i ==> (#[trigger] keep@[j])@ != e@,
        decreases keep@.len() - i,
    {
        if keep[i].same_as(e) {
            return true;
        }
        i = i + 1;
    }
    false
}

impl PathAttributeTable {
    /// Relies on `hashbrown::HashSet::new`: an empty set.
    #[verifier::external_body]
    pub fn new() -> (r: Self)
        ensures
            pool_entries(r) == Set::<EntryModel>::empty(),
    {
        PathAttributeTable { table: HashSet::new() }
    }

    /// Interns `entry`: relies on `hashbrown::HashSet::get_or_insert`, which
    /// adds the entry unless an equal one is present and returns the stored
    /// one (a clone of it is returned here).
    #[verifier::external_body]
    pub fn insert(&mut self, entry: PathAttributeTableEntry) -> (r: PathAttributeTableEntry)
        ensures
            pool_entries(*final(self)) == pool_entries(*old(self)).insert(entry@),
            r@ == entry@,
    {
        self.table.get_or_insert(entry).clone()
    }

    /// Keeps only the entries listed in `in_use` (those some destination
    /// still refers to): relies on `hashbrown::HashSet::retain`.
    #[verifier::external_body]
    pub fn remove_stale(&mut self, in_use: &Vec<PathAttributeTableEntry>)
        ensures
            pool_entries(*final(self)) == pool_entries(*old(self)).filter(|x: EntryModel| listed(in_use@, x)),
    {
        self.table.retain(|e| is_listed(in_use, e))
    }

    /// Relies on `hashbrown::HashSet::len`: the number of entries.
    #[verifier::external_body]
    pub fn len(&self) -> (r: usize)
        ensures
            r == pool_entries(*self).len(),
    {
        self.table.len()
    }
}

/// The entries of `v` whose flag is set, in order.
fn keep_entries(v: Vec<PathAttributeTableEntry>, flags: &Vec<bool>) -> (r: Vec<PathAttributeTableEntry>)
    requires
        flags@.len() == v@.len(),
    ensures
        entry_views(r@) == keep_flagged(entry_views(v@), flags@),
{
    let ghost old_view = entry_views(v@);
    let mut kept: Vec<PathAttributeTableEntry> = Vec::new();
    let mut rest = v;
    let mut i: usize = 0;
    let mut items: Vec<PathAttributeTableEntry> = Vec::new();
    while rest.len() > 0
        invariant
            entry_views(rest@) + entry_views(items@).reverse() == old_view,
        decreases rest@.len(),
    {
        let e = rest.pop().unwrap();
        let ghost ev = e@;
        let ghost before_items = entry_views(items@);
        items.push(e);
        proof {
            assert(entry_views(items@) =~= before_items.push(ev));
            assert(entry_views(items@).reverse() =~= seq![ev] + before_items.reverse());
        }
    }
    assert(entry_views(items@).reverse() =~= old_view);
    let n = flags.len();
    while items.len() > 0
        invariant
            n == flags@.len(),
            i == old_view.len() - entry_views(items@).len(),
            entry_views(items@).reverse() == old_view.subrange(i as int, old_view.len() as int),
            entry_views(kept@) == keep_flagged(old_view.subrange(0, i as int), flags@.subrange(0, i as int)),
            flags@.len() == old_view.len(),
        decreases items@.len(),
    {
        let ghost before_items = entry_views(items@);
        let e = items.pop().unwrap();
        let ghost ev = e@;
        proof {
            assert(before_items =~= entry_views(items@).push(ev));
            assert(before_items.reverse()[0] == ev);
            assert(entry_views(items@).reverse() =~= before_items.reverse().drop_first());
            assert(old_view.subrange(0, i + 1).drop_last() =~= old_view.subrange(0, i as int));
            assert(flags@.subrange(0, i + 1).drop_last() =~= flags@.subrange(0, i as int));
        }
        assert(i < n);
        if flags[i] {
            let ghost before_kept = entry_views(kept@);
            kept.push(e);
            assert(entry_views(kept@) =~= before_kept.push(ev));
        }
        i = i + 1;
    }
    assert(old_view.subrange(0, i as int) =~= old_view);
    assert(flags@.subrange(0, i as int) =~= flags@);
    kept
}

/// The items of `s` whose flag is set, in order.
pub open spec fn keep_flagged(s: Seq<EntryModel>, flags: Seq<bool>) -> Seq<EntryModel>
    decreases s.len(),
{
    if s.len() == 0 || flags.len() == 0 {
        Seq::empty()
    } else {
        let rest = keep_flagged(s.drop_last(), flags.drop_last());
        if flags.last() {
            rest.push(s.last())
        } else {
            rest
        }
    }
}

proof fn lemma_keep_flagged_no_dups(s: Seq<EntryModel>, flags: Seq<bool>)
    requires
        s.no_duplicates(),
        s.len() == flags.len(),
    ensures
        keep_flagged(s, flags).no_duplicates(),
        forall|x: EntryModel| #[trigger] keep_flagged(s, flags).contains(x) <==> exists|i: int|
            0 <= i < s.len() && flags[i] && s[i] == x,
    decreases s.len(),
{
    if s.len() > 0 {
        let t = s.drop_last();
        let f = flags.drop_last();
        assert(t.no_duplicates());
        lemma_keep_flagged_no_dups(t, f);
        let rest = keep_flagged(t, f);
        assert forall|x: EntryModel| #[trigger] keep_flagged(s, flags).contains(x) <==> exists|i: int|
            0 <= i < s.len() && flags[i] && s[i] == x by {
            if keep_flagged(s, flags).contains(x) {
                if rest.contains(x) {
                    let i = choose|i: int| 0 <= i < t.len() && f[i] && t[i] == x;
                    assert(flags[i] && s[i] == x);
                } else {
                    assert(flags.last());
                    let k = choose|k: int| 0 <= k < keep_flagged(s, flags).len() && keep_flagged(s, flags)[k] == x;
                    assert(k == rest.len());
                    assert(s[s.len() - 1] == x);
                }
            }
            if exists|i: int| 0 <= i < s.len() && flags[i] && s[i] == x {
                let i = choose|i: int| 0 <= i < s.len() && flags[i] && s[i] == x;
                if i < s.len() - 1 {
                    assert(f[i] && t[i] == x);
                    assert(rest.contains(x));
                    if flags.last() {
                        assert(keep_flagged(s, flags) == rest.push(s.last()));
                        assert(rest.push(s.last())[rest.index_of(x)] == x);
                    }
                } else {
                    assert(keep_flagged(s, flags) == rest.push(s.last()));
                    assert(rest.push(s.last())[rest.len() as int] == x);
                }
            }
        }
        if flags.last() {
            assert(!rest.contains(s.last())) by {
                if rest.contains(s.last()) {
                    let i = choose|i: int| 0 <= i < t.len() && f[i] && t[i] == s.last();
                    assert(s[i] == s[s.len() - 1]);
                }
            }
            let r = rest.push(s.last());
            assert forall|a: int, b: int| 0 <= a < r.len() && 0 <= b < r.len() && a != b implies r[a] != r[b] by {
                if a == rest.len() as int {
                    assert(rest[b] == r[b]);
                } else if b == rest.len() as int {
                    assert(rest[a] == r[a]);
                }
            }
        }
    }
}


/// Inserts `h` before the first path that `h` beats: a path list kept in
/// decision order stays in decision order, with the best path first.
pub open spec fn insert_path(s: Seq<EntryModel>, h: EntryModel) -> Seq<EntryModel>
    decreases s.len(),
{
    if s.len() == 0 {
        seq![h]
    } else if decision_less(h.decision, s[0].decision) {
        seq![h] + s
    } else {
        seq![s[0]] + insert_path(s.drop_first(), h)
    }
}

/// Flags the paths that did not come from peer `p`.
pub open spec fn other_peer_flags(s: Seq<EntryModel>, p: u32) -> Seq<bool> {
    Seq::new(s.len(), |i: int| s[i].decision.peer_id != p)
}

/// The paths of `s` that did not come from peer `p`, in order.
pub open spec fn drop_peer(s: Seq<EntryModel>, p: u32) -> Seq<EntryModel> {
    keep_flagged(s, other_peer_flags(s, p))
}

proof fn lemma_insert_path_at(s: Seq<EntryModel>, h: EntryModel, j: int)
    requires
        0 <= j <= s.len(),
        forall|i: int| 0 <= i < j ==> !decision_less(h.decision, #[trigger] s[i].decision),
        j < s.len() ==> decision_less(h.decision, s[j].decision),
    ensures
        insert_path(s, h) == s.insert(j, h),
    decreases j,
{
    if s.len() == 0 {
        assert(s.insert(j, h) =~= seq![h]);
    } else if j == 0 {
        assert(s.insert(0, h) =~= seq![h] + s);
    } else {
        assert forall|i: int| 0 <= i < j - 1 implies !decision_less(h.decision, #[trigger] s.drop_first()[i].decision) by {
            assert(s.drop_first()[i] == s[i + 1]);
        }
        lemma_insert_path_at(s.drop_first(), h, j - 1);
        assert(s.insert(j, h) =~= seq![s[0]] + s.drop_first().insert(j - 1, h));
    }
}

proof fn lemma_seq_insert_props(s: Seq<EntryModel>, h: EntryModel, j: int)
    requires
        0 <= j <= s.len(),
        s.no_duplicates(),
        !s.contains(h),
    ensures
        s.insert(j, h).no_duplicates(),
        forall|x: EntryModel| #[trigger] s.insert(j, h).contains(x) <==> (x == h || s.contains(x)),
        s.insert(j, h).len() > 0,
{
    let r = s.insert(j, h);
    assert forall|x: EntryModel| #[trigger] r.contains(x) <==> (x == h || s.contains(x)) by {
        if r.contains(x) {
            let k = choose|k: int| 0 <= k < r.len() && r[k] == x;
            if k < j {
                assert(s[k] == x);
            } else if k > j {
                assert(s[k - 1] == x);
            }
        }
        if x == h {
            assert(r[j] == h);
        } else if s.contains(x) {
            let k = choose|k: int| 0 <= k < s.len() && s[k] == x;
            if k < j {
                assert(r[k] == x);
            } else {
                assert(r[k + 1] == x);
            }
        }
    }
    assert forall|a: int, b: int| 0 <= a < r.len() && 0 <= b < r.len() && a != b implies r[a] != r[b] by {
        if a == j {
            if b < j {
                assert(r[b] == s[b]);
            } else {
                assert(r[b] == s[b - 1]);
            }
        } else if b == j {
            if a < j {
                assert(r[a] == s[a]);
            } else {
                assert(r[a] == s[a - 1]);
            }
        } else {
            let sa = if a < j { a } else { a - 1 };
            let sb = if b < j { b } else { b - 1 };
            assert(r[a] == s[sa]);
            assert(r[b] == s[sb]);
        }
    }
}

/// The feasible paths to one destination, best path first.
pub struct BgpTableEntry {
    paths: Vec<PathAttributeTableEntry>,
}

impl View for BgpTableEntry {
    type V = Seq<EntryModel>;

    closed spec fn view(&self) -> Seq<EntryModel> {
        entry_views(self.paths@)
    }
}

impl BgpTableEntry {
    pub fn new(pa_entry: &PathAttributeTableEntry) -> (r: Self)
        ensures
            r@ == seq![pa_entry@],
    {
        let mut paths: Vec<PathAttributeTableEntry> = Vec::new();
        paths.push(pa_entry.clone_entry());
        let r = BgpTableEntry { paths };
        assert(r@ =~= seq![pa_entry@]);
        r
    }

    /// Adds the path unless it is present; says whether it was added.
    pub fn insert(&mut self, pa_entry: &PathAttributeTableEntry) -> (r: bool)
        ensures
            r == !old(self)@.contains(pa_entry@),
            r ==> final(self)@ == insert_path(old(self)@, pa_entry@),
            !r ==> final(self)@ == old(self)@,
    {
        if self.is_in(pa_entry) {
            return false;
        }
        let ghost s = self@;
        let d = pa_entry.decision();
        let mut j: usize = 0;
        while j < self.paths.len() && !d.is_better(&self.paths[j].decision())
            invariant
                j <= self.paths@.len(),
                s == self@,
                d == pa_entry@.decision,
                forall|i: int| 0 <= i < j ==> !decision_less(d, #[trigger] s[i].decision),
            decreases self.paths@.len() - j,
        {
            j = j + 1;
        }
        proof {
            lemma_insert_path_at(s, pa_entry@, j as int);
        }
        self.paths.insert(j, pa_entry.clone_entry());
        assert(self@ =~= s.insert(j as int, pa_entry@));
        true
    }

    /// Whether an equal path is present.
    pub fn is_in(&self, pa_entry: &PathAttributeTableEntry) -> (r: bool)
        ensures
            r == self@.contains(pa_entry@),
    {
        let mut i: usize = 0;
        while i < self.paths.len()
            invariant
                i <= self.paths@.len(),
                forall|j: int| 0 <= j < i ==> self@[j] != pa_entry@,
            decreases self.paths@.len() - i,
        {
            if self.paths[i].same_as(pa_entry) {
                assert(self@[i as int] == pa_entry@);
                return true;
            }
            i = i + 1;
        }
        false
    }

    pub fn is_empty(&self) -> (r: bool)
        ensures
            r == (self@.len() == 0),
    {
        self.paths.len() == 0
    }

    /// The best path.
    pub fn bestpath(&self) -> (r: &PathAttributeTableEntry)
        requires
            self@.len() > 0,
        ensures
            r@ == self@[0],
    {
        &self.paths[0]
    }

    /// Removes every path learned from the peer that `path` came from.
    pub fn remove(&mut self, path: &PathAttributeTableEntry)
        ensures
            final(self)@ == drop_peer(old(self)@, path@.decision.peer_id),
    {
        let p = path.peer_id();
        let ghost s = self@;
        let mut flags: Vec<bool> = Vec::new();
        let mut i: usize = 0;
        while i < self.paths.len()
            invariant
                i <= self.paths@.len(),
                s == self@,
                flags@ == other_peer_flags(s, p).subrange(0, i as int),
            decreases self.paths@.len() - i,
        {
            flags.push(self.paths[i].peer_id() != p);
            assert(flags@ =~= other_peer_flags(s, p).subrange(0, i + 1));
            i = i + 1;
        }
        assert(flags@ =~= other_peer_flags(s, p));
        let mut rest: Vec<PathAttributeTableEntry> = Vec::new();
        std::mem::swap(&mut self.paths, &mut rest);
        self.paths = keep_entries(rest, &flags);
    }

    pub fn len(&self) -> (r: usize)
        ensures
            r == self@.len(),
    {
        self.paths.len()
    }
}

/// Withdrawing a peer's paths removes exactly the paths whose source peer
/// is that peer, whatever their attributes, and keeps the rest in order.
pub proof fn lemma_withdraw_by_peer(s: Seq<EntryModel>, p: u32)
    requires
        s.no_duplicates(),
    ensures
        drop_peer(s, p).no_duplicates(),
        forall|x: EntryModel| #[trigger] drop_peer(s, p).contains(x) <==> (s.contains(x) && x.decision.peer_id != p),
{
    let f = other_peer_flags(s, p);
    lemma_keep_flagged_no_dups(s, f);
    assert forall|x: EntryModel| #[trigger] drop_peer(s, p).contains(x) <==> (s.contains(x) && x.decision.peer_id != p) by {
        if s.contains(x) && x.decision.peer_id != p {
            let i = choose|i: int| 0 <= i < s.len() && s[i] == x;
            assert(f[i]);
        }
    }
}

/// Groups of advertised routes keyed by the attributes of their best path.
pub type AdvModel = Seq<(Seq<PathAttrModel>, Seq<Route>)>;

/// Index of the group with attributes `key`, or -1.
pub open spec fn group_index(a: AdvModel, key: Seq<PathAttrModel>) -> int
    decreases a.len(),
{
    if a.len() == 0 {
        -1
    } else if a[0].0 == key {
        0
    } else {
        let r = group_index(a.drop_first(), key);
        if r < 0 {
            -1
        } else {
            r + 1
        }
    }
}

/// Adds `r` to the group of `key`, opening the group if there is none.
pub open spec fn adv_add(a: AdvModel, key: Seq<PathAttrModel>, r: Route) -> AdvModel {
    let i = group_index(a, key);
    if i < 0 {
        a.push((key, seq![r]))
    } else {
        a.update(i, (key, a[i].1.push(r)))
    }
}

proof fn lemma_group_index(a: AdvModel, key: Seq<PathAttrModel>, j: int)
    requires
        0 <= j <= a.len(),
        forall|i: int| 0 <= i < j ==> (#[trigger] a[i]).0 != key,
        j < a.len() ==> a[j].0 == key,
    ensures
        group_index(a, key) == if j < a.len() { j } else { -1 },
    decreases j,
{
    if a.len() > 0 && j > 0 {
        assert forall|i: int| 0 <= i < j - 1 implies (#[trigger] a.drop_first()[i]).0 != key by {
            assert(a.drop_first()[i] == a[i + 1]);
        }
        lemma_group_index(a.drop_first(), key, j - 1);
    }
}

/// Routes to advertise, one group per attribute bundle.
pub struct AdvertisedRoutes<T> {
    _marker: PhantomData<T>,
    keys: Vec<Vec<PathAttr>>,
    groups: Vec<Vec<Route>>,
}

impl<T> View for AdvertisedRoutes<T> {
    type V = AdvModel;

    closed spec fn view(&self) -> AdvModel {
        Seq::new(self.keys@.len(), |i: int| (attr_views(self.keys@[i]@), self.groups@[i]@))
    }
}

/// No two groups share their attributes.
pub open spec fn keys_unique(a: AdvModel) -> bool {
    forall|i: int, j: int| 0 <= i < j < a.len() ==> (#[trigger] a[i]).0 != (#[trigger] a[j]).0
}

impl<T> AdvertisedRoutes<T> {
    pub closed spec fn wf(&self) -> bool {
        &&& self.keys@.len() == self.groups@.len()
        &&& keys_unique(self@)
    }

    /// Well-formed groups have distinct attributes.
    pub proof fn lemma_keys_unique(&self)
        requires
            self.wf(),
        ensures
            keys_unique(self@),
    {
    }

    pub fn new() -> (r: Self)
        ensures
            r.wf(),
            r@ == AdvModel::empty(),
    {
        let r = AdvertisedRoutes { _marker: PhantomData, keys: Vec::new(), groups: Vec::new() };
        assert(r@ =~= AdvModel::empty());
        r
    }

    /// Number of groups, that is of UPDATE messages to build.
    pub fn len(&self) -> (r: usize)
        requires
            self.wf(),
        ensures
            r == self@.len(),
    {
        self.keys.len()
    }

    pub fn is_empty(&self) -> (r: bool)
        requires
            self.wf(),
        ensures
            r == (self@.len() == 0),
    {
        self.keys.len() == 0
    }

    /// The attributes of group `i`.
    pub fn key(&self, i: usize) -> (r: &[PathAttr])
        requires
            self.wf(),
            i < self@.len(),
        ensures
            attr_views(r@) == self@[i as int].0,
    {
        self.keys[i].as_slice()
    }

    /// The routes of group `i`.
    pub fn group(&self, i: usize) -> (r: &[Route])
        requires
            self.wf(),
            i < self@.len(),
        ensures
            r@ == self@[i as int].1,
    {
        self.groups[i].as_slice()
    }

    /// Adds `route` to the group of attributes `key`.
    pub fn entry(&mut self, key: &[PathAttr], route: Route)
        requires
            old(self).wf(),
        ensures
            final(self).wf(),
            final(self)@ == adv_add(old(self)@, attr_views(key@), route),
    {
        let ghost a = self@;
        let ghost kv = attr_views(key@);
        let mut j: usize = 0;
        while j < self.keys.len()
            invariant
                self.wf(),
                a == self@,
                a == old(self)@,
                kv == attr_views(key@),
                j <= self.keys@.len(),
                forall|i: int| 0 <= i < j ==> (#[trigger] a[i]).0 != kv,
            decreases self.keys@.len() - j,
        {
            assert(a[j as int].0 == attr_views(self.keys@[j as int]@));
            let kj = self.keys[j].as_slice();
            assert(kj@ == self.keys@[j as int]@);
            let same = same_attrs(kj, key);

            if same {
                proof {
                    lemma_group_index(a, kv, j as int);
                    assert(group_index(a, kv) == j as int);
                }
                let mut g = self.groups.remove(j);
                g.push(route);
                self.groups.insert(j, g);
                assert(self@ =~= a.update(j as int, (kv, a[j as int].1.push(route))));
                assert forall|x: int, y: int| 0 <= x < y < self@.len() implies (#[trigger] self@[x]).0 != (#[trigger] self@[y]).0 by {
                    assert(self@[x].0 == a[x].0 && self@[y].0 == a[y].0);
                }
                return;
            }
            j = j + 1;
        }
        proof {
            lemma_group_index(a, kv, j as int);
        }
        self.keys.push(clone_attrs(key));
        let mut g: Vec<Route> = Vec::new();
        g.push(route);
        self.groups.push(g);
        assert(self@ =~= a.push((kv, seq![route])));
        assert forall|x: int, y: int| 0 <= x < y < self@.len() implies (#[trigger] self@[x]).0 != (#[trigger] self@[y]).0 by {
            if y == a.len() {
                assert(a[x].0 != kv);
            } else {
                assert(self@[x] == a[x] && self@[y] == a[y]);
            }
        }
    }
}


proof fn lemma_insert_path_is_insert(s: Seq<EntryModel>, h: EntryModel) -> (j: int)
    ensures
        0 <= j <= s.len(),
        insert_path(s, h) == s.insert(j, h),
        forall|i: int| 0 <= i < j ==> !decision_less(h.decision, #[trigger] s[i].decision),
        j < s.len() ==> decision_less(h.decision, s[j].decision),
    decreases s.len(),
{
    if s.len() == 0 {
        assert(s.insert(0, h) =~= seq![h]);
        0
    } else if decision_less(h.decision, s[0].decision) {
        assert(s.insert(0, h) =~= seq![h] + s);
        0
    } else {
        let t = s.drop_first();
        let j = lemma_insert_path_is_insert(t, h);
        assert(s.insert(j + 1, h) =~= seq![s[0]] + t.insert(j, h));
        assert forall|i: int| 0 <= i < j + 1 implies !decision_less(h.decision, #[trigger] s[i].decision) by {
            if i > 0 {
                assert(s[i] == t[i - 1]);
            }
        }
        if j < t.len() {
            assert(s[j + 1] == t[j]);
        }
        j + 1
    }
}

/// No later path in the list beats an earlier one.
pub open spec fn paths_sorted(s: Seq<EntryModel>) -> bool {
    forall|i: int, j: int| 0 <= i < j < s.len() ==> !decision_less(#[trigger] s[j].decision, #[trigger] s[i].decision)
}

/// The decision order is transitive on the paths of `s`.
pub open spec fn order_transitive(s: Seq<EntryModel>) -> bool {
    forall|a: EntryModel, b: EntryModel, c: EntryModel|
        s.contains(a) && s.contains(b) && s.contains(c) && #[trigger] decision_less(a.decision, b.decision)
            && #[trigger] decision_less(b.decision, c.decision) ==> decision_less(a.decision, c.decision)
}

/// In a list kept in decision order, no path beats the first one: the best
/// path of a destination is minimal in the decision order.
pub proof fn lemma_best_path_minimal(s: Seq<EntryModel>)
    requires
        paths_sorted(s),
        s.len() > 0,
    ensures
        forall|i: int| 0 <= i < s.len() ==> !decision_less(#[trigger] s[i].decision, s[0].decision),
{
    assert forall|i: int| 0 <= i < s.len() implies !decision_less(#[trigger] s[i].decision, s[0].decision) by {
        if i == 0 {
            lemma_decision_antisymmetric(s[0].decision, s[0].decision);
        }
    }
}

/// Inserting a path keeps a list in decision order wherever the order is
/// transitive on the paths involved.
pub proof fn lemma_insert_keeps_order(s: Seq<EntryModel>, h: EntryModel)
    requires
        paths_sorted(s),
        order_transitive(s.push(h)),
    ensures
        paths_sorted(insert_path(s, h)),
{
    let j = lemma_insert_path_is_insert(s, h);
    let r = s.insert(j, h);
    let sp = s.push(h);
    assert forall|a: int, b: int| 0 <= a < b < r.len() implies !decision_less(#[trigger] r[b].decision, #[trigger] r[a].decision) by {
        if a == j {
            let y = s[b - 1];
            assert(r[b] == y);
            if b - 1 == j {
                lemma_decision_antisymmetric(h.decision, y.decision);
            } else {
                if decision_less(y.decision, h.decision) {
                    assert(sp[b - 1] == y && sp[j] == s[j] && sp[s.len() as int] == h);
                    assert(sp.contains(y) && sp.contains(h) && sp.contains(s[j]));
                    assert(decision_less(y.decision, s[j].decision));
                    assert(!decision_less(s[b - 1].decision, s[j].decision));
                }
            }
        } else if b == j {
            assert(r[a] == s[a]);
        } else {
            let sa = if a < j { a } else { a - 1 };
            let sb = if b < j { b } else { b - 1 };
            assert(r[a] == s[sa] && r[b] == s[sb]);
        }
    }
}

proof fn lemma_keep_flagged_from(s: Seq<EntryModel>, f: Seq<bool>)
    requires
        s.len() == f.len(),
    ensures
        keep_flagged(s, f).len() <= s.len(),
        paths_sorted(s) ==> paths_sorted(keep_flagged(s, f)),
        forall|k: int| 0 <= k < keep_flagged(s, f).len() ==> exists|i: int| 0 <= i < s.len() && #[trigger] keep_flagged(s, f)[k] == s[i],
    decreases s.len(),
{
    if s.len() > 0 {
        let t = s.drop_last();
        let g = f.drop_last();
        lemma_keep_flagged_from(t, g);
        let rest = keep_flagged(t, g);
        let r = keep_flagged(s, f);
        assert forall|k: int| 0 <= k < r.len() implies exists|i: int| 0 <= i < s.len() && #[trigger] r[k] == s[i] by {
            if k < rest.len() {
                let i = choose|i: int| 0 <= i < t.len() && rest[k] == t[i];
                assert(r[k] == s[i]);
            } else {
                assert(r[k] == s[s.len() - 1]);
            }
        }
        if paths_sorted(s) {
            assert(paths_sorted(t)) by {
                assert forall|a: int, b: int| 0 <= a < b < t.len() implies !decision_less(#[trigger] t[b].decision, #[trigger] t[a].decision) by {
                    assert(t[a] == s[a] && t[b] == s[b]);
                }
            }
            assert forall|a: int, b: int| 0 <= a < b < r.len() implies !decision_less(#[trigger] r[b].decision, #[trigger] r[a].decision) by {
                if b < rest.len() {
                    assert(r[a] == rest[a] && r[b] == rest[b]);
                } else {
                    let i = choose|i: int| 0 <= i < t.len() && rest[a] == t[i];
                    assert(r[a] == s[i]);
                    assert(r[b] == s[s.len() - 1]);
                }
            }
        }
    }
}

/// Withdrawing a peer's paths keeps a list in decision order.
pub proof fn lemma_withdraw_keeps_order(s: Seq<EntryModel>, p: u32)
    requires
        paths_sorted(s),
    ensures
        paths_sorted(drop_peer(s, p)),
{
    lemma_keep_flagged_from(s, other_peer_flags(s, p));
}

/// Address-family markers of a table.
pub struct Ipv4;

pub struct Ipv6;

/// The table key of an IPv4 prefix.
pub open spec fn dest_key(prefix: u32, len: u8) -> u64 {
    (prefix as nat * 256 + len as nat) as u64
}

fn key_of(prefix: u32, len: u8) -> (r: u64)
    ensures
        r == dest_key(prefix, len),
{
    prefix as u64 * 256 + len as u64
}

/// Destinations and their path lists.
pub type DestMap = Map<u64, Seq<EntryModel>>;

pub open spec fn dest_view(m: Map<u64, BgpTableEntry>) -> DestMap {
    Map::new(|k: u64| m.contains_key(k), |k: u64| m[k]@)
}

/// Some destination holds a path equal to `x`.
pub open spec fn referenced(m: DestMap, x: EntryModel) -> bool {
    exists|k: u64| m.contains_key(k) && (#[trigger] m[k]).contains(x)
}

/// Every destination has paths, none twice, each of them interned.
pub open spec fn dests_wf(m: DestMap, pool: Set<EntryModel>) -> bool {
    forall|k: u64| #[trigger] m.contains_key(k) ==> {
        &&& m[k].len() > 0
        &&& m[k].no_duplicates()
        &&& forall|x: EntryModel| m[k].contains(x) ==> pool.contains(x)
    }
}

/// The interned entry that an UPDATE carries.
pub open spec fn entry_of(rx: ReceivedModel) -> EntryModel {
    EntryModel { decision: decision_of(rx), raw: sort_by_code(rx.path_attrs) }
}

/// One advertised route: a new destination, or a new path that is now the best.
pub open spec fn adv_step(m: DestMap, a: AdvModel, h: EntryModel, r: Route) -> (DestMap, AdvModel) {
    match r@.1 {
        IpAddress::V6(_) => (m, a),
        IpAddress::V4(p) => {
            let k = dest_key(p, r@.0);
            if !m.contains_key(k) {
                (m.insert(k, seq![h]), adv_add(a, h.raw, r))
            } else if m[k].contains(h) {
                (m, a)
            } else {
                let s = insert_path(m[k], h);
                (m.insert(k, s), if s[0] == h { adv_add(a, h.raw, r) } else { a })
            }
        },
    }
}

pub open spec fn adv_all(m: DestMap, a: AdvModel, h: EntryModel, rs: Seq<Route>) -> (DestMap, AdvModel)
    decreases rs.len(),
{
    if rs.len() == 0 {
        (m, a)
    } else {
        let (m1, a1) = adv_all(m, a, h, rs.drop_last());
        adv_step(m1, a1, h, rs.last())
    }
}

/// One withdrawn route: the peer's paths leave the destination; an emptied
/// destination is withdrawn, a changed best path is advertised.
pub open spec fn wd_step(m: DestMap, a: AdvModel, w: Seq<Route>, p: u32, r: Route) -> (DestMap, AdvModel, Seq<Route>) {
    match r@.1 {
        IpAddress::V6(_) => (m, a, w),
        IpAddress::V4(x) => {
            let k = dest_key(x, r@.0);
            if !m.contains_key(k) {
                (m, a, w)
            } else {
                let was_best = m[k][0].decision.peer_id == p;
                let s = drop_peer(m[k], p);
                if s.len() == 0 {
                    (m.remove(k), a, w.push(r))
                } else {
                    (m.insert(k, s), if was_best { adv_add(a, s[0].raw, r) } else { a }, w)
                }
            }
        },
    }
}

pub open spec fn wd_all(m: DestMap, a: AdvModel, w: Seq<Route>, p: u32, rs: Seq<Route>) -> (DestMap, AdvModel, Seq<Route>)
    decreases rs.len(),
{
    if rs.len() == 0 {
        (m, a, w)
    } else {
        let (m1, a1, w1) = wd_all(m, a, w, p, rs.drop_last());
        wd_step(m1, a1, w1, p, rs.last())
    }
}

/// What a walk does to the destinations, and the withdrawn and advertised routes.
pub open spec fn walk_model(m: DestMap, rx: ReceivedModel) -> (DestMap, Seq<Route>, AdvModel) {
    let (m1, a1) = adv_all(m, AdvModel::empty(), entry_of(rx), rx.routes);
    let (m2, a2, w2) = wd_all(m1, a1, Seq::empty(), rx.peer_id, rx.withdrawn);
    (m2, w2, a2)
}

proof fn lemma_fold_commutative(m: DestMap)
    ensures
        vstd::set::fold::is_fun_commutative(|acc: nat, k: u64| acc + m[k].len()),
{
}

/// Paths summed over the destinations.
pub open spec fn total_paths(m: DestMap) -> nat {
    m.dom().fold(0nat, |acc: nat, k: u64| acc + m[k].len())
}

/// The BGP table of one address family.
pub struct BgpTable<A> {
    _afi: PhantomData<A>,
    table: HashMap<u64, BgpTableEntry>,
    table_version: u64,
    pa_table: PathAttributeTable,
    skipped_routes: u64,
}

/// Routes of another address family in a list.
pub open spec fn other_family_count(rs: Seq<Route>) -> nat
    decreases rs.len(),
{
    if rs.len() == 0 {
        0
    } else {
        other_family_count(rs.drop_last()) + if route_key(rs.last()) is Some { 0nat } else { 1nat }
    }
}

/// `x` capped at `u64::MAX`.
pub open spec fn sat_u64(x: nat) -> u64 {
    if x <= u64::MAX { x as u64 } else { u64::MAX }
}

impl<A> BgpTable<A> {
    pub closed spec fn dests(&self) -> DestMap {
        dest_view(self.table@)
    }

    pub closed spec fn version(&self) -> u64 {
        self.table_version
    }

    pub closed spec fn pool(&self) -> Set<EntryModel> {
        self.pa_table@
    }

    /// Routes of another address family that walks have skipped.
    pub closed spec fn skipped(&self) -> u64 {
        self.skipped_routes
    }

    /// Routes of another address family that walks have skipped (saturating).
    pub fn skipped_routes(&self) -> (r: u64)
        ensures
            r == self.skipped(),
    {
        self.skipped_routes
    }

    /// The pool holds no entry twice and exactly the entries some destination uses.
    pub open spec fn wf(&self) -> bool {
        &&& dests_wf(self.dests(), self.pool())
        &&& forall|x: EntryModel| #[trigger] self.pool().contains(x) <==> referenced(self.dests(), x)
    }

    pub fn increment_version(&mut self)
        requires
            old(self).version() < u64::MAX,
        ensures
            final(self).version() == old(self).version() + 1,
            final(self).dests() == old(self).dests(),
            final(self).pool() == old(self).pool(),
    {
        self.table_version = self.table_version + 1;
    }

    pub fn table_version(&self) -> (r: u64)
        ensures
            r == self.version(),
    {
        self.table_version
    }

    /// Number of destinations.
    pub fn num_destinations(&self) -> (r: usize)
        ensures
            r == self.dests().dom().len(),
    {
        assert(self.dests().dom() =~= self.table@.dom());
        self.table.len()
    }

    /// Number of paths over all destinations (saturating at `usize::MAX`).
    pub fn num_paths(&self) -> (r: usize)
        ensures
            r == if total_paths(self.dests()) <= usize::MAX { total_paths(self.dests()) } else { usize::MAX as nat },
    {
        let ghost m = self.dests();
        let ghost f = |acc: nat, k: u64| acc + m[k].len();
        let ghost v = vstd::std_specs::hash::spec_hash_map_iter(&self.table).remaining();
        let ghost mut done: int = 0;
        let ghost mut seen: Set<u64> = Set::empty();
        let mut sum: usize = 0;
        proof {
            lemma_fold_commutative(m);
            vstd::set::fold::lemma_fold_empty(0nat, f);
            assert(v.subrange(0, 0).map_values(|kv: (&u64, &BgpTableEntry)| *kv.0).to_set() =~= Set::<u64>::empty());
        }
        let iter = self.table.iter();
        assert(iter.remaining() == v);
        assert(v.no_duplicates());
        for kv in it: iter
            invariant
                v.no_duplicates(),
                m == self.dests(),
                f == (|acc: nat, k: u64| acc + m[k].len()),
                vstd::set::fold::is_fun_commutative(f),
                v == vstd::std_specs::hash::spec_hash_map_iter(&self.table).remaining(),
                it.seq() == v,
                done == it.index(),
                0 <= done <= v.len(),
                seen == v.subrange(0, done).map_values(|kv: (&u64, &BgpTableEntry)| *kv.0).to_set(),
                seen.finite(),
                sum == if seen.fold(0nat, f) <= usize::MAX { seen.fold(0nat, f) } else { usize::MAX as nat },
        {
            let (k, e) = kv;
            proof {
                assert(v[done] == (k, e));
                let key = *k;
                assert(self.table@.contains_key(key) && self.table@[key] == *e);
                assert(!seen.contains(key)) by {
                    if seen.contains(key) {
                        let ks = v.subrange(0, done).map_values(|kv: (&u64, &BgpTableEntry)| *kv.0);
                        assert(ks.contains(key));
                        let q = choose|q: int| 0 <= q < ks.len() && ks[q] == key;
                        assert(v[q].0 == v[done].0);
                        assert(v.no_duplicates());
                        assert(v[q] == (&key, &self.table@[key]));
                    }
                }
                vstd::set::fold::lemma_fold_insert(seen, 0nat, f, key);
                let ks1 = v.subrange(0, done + 1).map_values(|kv: (&u64, &BgpTableEntry)| *kv.0);
                let ks0 = v.subrange(0, done).map_values(|kv: (&u64, &BgpTableEntry)| *kv.0);
                assert(ks1 =~= ks0.push(key));
                ks0.lemma_push_to_set_commute(key);
            }
            let l = e.len();
            sum = sum.saturating_add(l);
            proof {
                seen = seen.insert(*k);
                done = done + 1;
            }
        }
        proof {
            assert(seen =~= m.dom()) by {
                assert forall|key: u64| seen.contains(key) <==> m.dom().contains(key) by {
                    let ks = v.map_values(|kv: (&u64, &BgpTableEntry)| *kv.0);
                    assert(v.subrange(0, done) =~= v);
                    if m.dom().contains(key) {
                        assert(v.contains((&key, &self.table@[key])));
                        let q = choose|q: int| 0 <= q < v.len() && v[q] == (&key, &self.table@[key]);
                        assert(ks[q] == key);
                    }
                    if seen.contains(key) {
                        let q = choose|q: int| 0 <= q < ks.len() && ks[q] == key;
                        assert(self.table@.contains_key(*v[q].0));
                    }
                }
            }
        }
        sum
    }

    /// Number of interned attribute bundles.
    pub fn num_pa_entries(&self) -> (r: usize)
        ensures
            r == self.pool().len(),
    {
        self.pa_table.len()
    }
}

/// The distinct entries that the destinations refer to.
fn entries_in_use(table: &HashMap<u64, BgpTableEntry>) -> (r: Vec<PathAttributeTableEntry>)
    ensures
        forall|x: EntryModel| #[trigger] listed(r@, x) <==> referenced(dest_view(table@), x),
{
    let mut out: Vec<PathAttributeTableEntry> = Vec::new();
    let ghost v = vstd::std_specs::hash::spec_hash_map_iter(table).remaining();
    let ghost mut done: int = 0;
    for kv in it: table.iter()
        invariant
            v == vstd::std_specs::hash::spec_hash_map_iter(table).remaining(),
            it.seq() == v,
            done == it.index(),
            forall|x: EntryModel| #[trigger] listed(out@, x) <==> exists|q: int|
                0 <= q < done && (*v[q].1)@.contains(x),
    {
        let (_k, e) = kv;
        assert(*e == *v[done].1);
        let ghost prev = out@;
        let ghost ev = e@;
        let mut j: usize = 0;
        while j < e.paths.len()
            invariant
                ev == e@,
                j <= ev.len(),
                forall|x: EntryModel| #[trigger] listed(out@, x) <==> (listed(prev, x) || exists|jj: int|
                    0 <= jj < j && ev[jj] == x),
            decreases ev.len() - j,
        {
            let path = &e.paths[j];
            assert(path@ == ev[j as int]);
            if !is_listed(&out, path) {
                let ghost before = out@;
                out.push(path.clone_entry());
                proof {
                    assert forall|x: EntryModel| #[trigger] listed(out@, x) <==> (listed(before, x) || x == ev[j as int]) by {
                        if listed(out@, x) {
                            let i = choose|i: int| 0 <= i < out@.len() && (#[trigger] out@[i])@ == x;
                            if i < before.len() {
                                assert(before[i] == out@[i]);
                            }
                        }
                        if listed(before, x) {
                            let i = choose|i: int| 0 <= i < before.len() && (#[trigger] before[i])@ == x;
                            assert(out@[i] == before[i]);
                        }
                        if x == ev[j as int] {
                            assert(out@[before.len() as int]@ == x);
                        }
                    }
                }
            }
            proof {
                assert forall|x: EntryModel| #[trigger] listed(out@, x) <==> (listed(prev, x) || exists|jj: int|
                    0 <= jj < j + 1 && ev[jj] == x) by {
                    if exists|jj: int| 0 <= jj < j + 1 && ev[jj] == x {
                        let jj = choose|jj: int| 0 <= jj < j + 1 && ev[jj] == x;
                        if jj < j {
                        }
                    }
                }
            }
            j = j + 1;
        }
        proof {
            assert forall|x: EntryModel| #[trigger] listed(out@, x) <==> exists|q: int|
                0 <= q < done + 1 && (*v[q].1)@.contains(x) by {
                if exists|jj: int| 0 <= jj < ev.len() && ev[jj] == x {
                    let jj = choose|jj: int| 0 <= jj < ev.len() && ev[jj] == x;
                    assert((*v[done].1)@.contains(x));
                }
                if exists|q: int| 0 <= q < done + 1 && (*v[q].1)@.contains(x) {
                    let q = choose|q: int| 0 <= q < done + 1 && (*v[q].1)@.contains(x);
                    if q == done {
                        let jj = choose|jj: int| 0 <= jj < ev.len() && ev[jj] == x;
                    }
                }
            }
            done = done + 1;
        }
    }
    assert(done == v.len());
    proof {
        assert forall|x: EntryModel| #[trigger] listed(out@, x) <==> referenced(dest_view(table@), x) by {
            let m = dest_view(table@);
            if listed(out@, x) {
                let q = choose|q: int| 0 <= q < done && (*v[q].1)@.contains(x);
                let k = *v[q].0;
                assert(table@.contains_key(k));
                assert(m.contains_key(k) && m[k].contains(x));
            }
            if referenced(m, x) {
                let k = choose|k: u64| m.contains_key(k) && (#[trigger] m[k]).contains(x);
                assert(table@.contains_key(k));
                assert(v.contains((&k, &table@[k])));
                let q = choose|q: int| 0 <= q < v.len() && v[q] == (&k, &table@[k]);
                assert((*v[q].1)@.contains(x));
            }
        }
    }
    out
}

proof fn lemma_adv_step_wf(m: DestMap, a: AdvModel, h: EntryModel, r: Route, pool: Set<EntryModel>)
    requires
        dests_wf(m, pool),
        pool.contains(h),
    ensures
        dests_wf(adv_step(m, a, h, r).0, pool),
{
    match r@.1 {
        IpAddress::V6(_) => {},
        IpAddress::V4(p) => {
            let k = dest_key(p, r@.0);
            if !m.contains_key(k) {
                let m2 = m.insert(k, seq![h]);
                assert forall|kk: u64| #[trigger] m2.contains_key(kk) implies {
                    &&& m2[kk].len() > 0
                    &&& m2[kk].no_duplicates()
                    &&& forall|x: EntryModel| m2[kk].contains(x) ==> pool.contains(x)
                } by {
                    if kk == k {
                        assert forall|x: EntryModel| m2[kk].contains(x) implies pool.contains(x) by {
                            assert(seq![h][0] == h);
                        }
                    }
                }
            } else if !m[k].contains(h) {
                let s = m[k];
                let j = lemma_insert_path_is_insert(s, h);
                lemma_seq_insert_props(s, h, j);
                let m2 = m.insert(k, insert_path(s, h));
                assert forall|kk: u64| #[trigger] m2.contains_key(kk) implies {
                    &&& m2[kk].len() > 0
                    &&& m2[kk].no_duplicates()
                    &&& forall|x: EntryModel| m2[kk].contains(x) ==> pool.contains(x)
                } by {
                    if kk == k {
                        assert forall|x: EntryModel| m2[kk].contains(x) implies pool.contains(x) by {
                            assert(s.insert(j, h).contains(x));
                        }
                    }
                }
            }
        },
    }
}

proof fn lemma_wd_step_wf(m: DestMap, a: AdvModel, w: Seq<Route>, p: u32, r: Route, pool: Set<EntryModel>)
    requires
        dests_wf(m, pool),
    ensures
        dests_wf(wd_step(m, a, w, p, r).0, pool),
{
    match r@.1 {
        IpAddress::V6(_) => {},
        IpAddress::V4(x) => {
            let k = dest_key(x, r@.0);
            if m.contains_key(k) {
                let s = drop_peer(m[k], p);
                lemma_withdraw_by_peer(m[k], p);
                if s.len() > 0 {
                    let m2 = m.insert(k, s);
                    assert forall|kk: u64| #[trigger] m2.contains_key(kk) implies {
                        &&& m2[kk].len() > 0
                        &&& m2[kk].no_duplicates()
                        &&& forall|y: EntryModel| m2[kk].contains(y) ==> pool.contains(y)
                    } by {
                        if kk == k {
                            assert forall|y: EntryModel| m2[kk].contains(y) implies pool.contains(y) by {
                                assert(m[k].contains(y));
                            }
                        }
                    }
                } else {
                    let m2 = m.remove(k);
                    assert forall|kk: u64| #[trigger] m2.contains_key(kk) implies {
                        &&& m2[kk].len() > 0
                        &&& m2[kk].no_duplicates()
                        &&& forall|y: EntryModel| m2[kk].contains(y) ==> pool.contains(y)
                    } by {
                        assert(m.contains_key(kk));
                    }
                }
            }
        },
    }
}

impl BgpTable<Ipv6> {
    pub fn new() -> (r: Self)
        ensures
            r.wf(),
            r.dests() == DestMap::empty(),
            r.version() == 0,
            r.skipped() == 0,
            r.pool() == Set::<EntryModel>::empty(),
    {
        let r = BgpTable {
            _afi: PhantomData,
            table: HashMap::new(),
            table_version: 0,
            pa_table: PathAttributeTable::new(),
            skipped_routes: 0,
        };
        assert(r.dests() =~= DestMap::empty());
        r
    }
}

/// Two well-formed tables with the same destinations hold pools of the same size.
pub proof fn lemma_pool_size_follows_dests<A>(t1: &BgpTable<A>, t2: &BgpTable<A>)
    requires
        t1.wf(),
        t2.wf(),
        t1.dests() == t2.dests(),
    ensures
        t1.pool().len() == t2.pool().len(),
{
    assert(t1.pool() =~= t2.pool()) by {
        assert forall|x: EntryModel| t1.pool().contains(x) <==> t2.pool().contains(x) by {
            assert(t1.pool().contains(x) <==> referenced(t1.dests(), x));
            assert(t2.pool().contains(x) <==> referenced(t2.dests(), x));
        }
    }
}

impl BgpTable<Ipv4> {
    pub fn new() -> (r: Self)
        ensures
            r.wf(),
            r.dests() == DestMap::empty(),
            r.version() == 0,
            r.skipped() == 0,
            r.pool() == Set::<EntryModel>::empty(),
    {
        let r = BgpTable {
            _afi: PhantomData,
            table: HashMap::new(),
            table_version: 0,
            pa_table: PathAttributeTable::new(),
            skipped_routes: 0,
        };
        assert(r.dests() =~= DestMap::empty());
        r
    }

    /// Applies one UPDATE's routes to the table and returns the routes to
    /// withdraw and the routes to advertise, grouped by attribute bundle.
    pub fn walk(&mut self, payload: ReceivedRoutes) -> (r: (Vec<Route>, AdvertisedRoutes<Ipv4>))
        requires
            old(self).wf(),
            old(self).version() < u64::MAX,
        ensures
            final(self).wf(),
            r.1.wf(),
            keys_unique(r.1@),
            (final(self).dests(), r.0@, r.1@) == walk_model(old(self).dests(), payload@),
            final(self).version() == old(self).version() + if r.0@.len() > 0 || r.1@.len() > 0 {
                1int
            } else {
                0int
            },
            final(self).skipped() == sat_u64(
                old(self).skipped() as nat + other_family_count(payload@.routes) + other_family_count(payload@.withdrawn),
            ),
    {
        let ghost rx = payload@;
        let ghost m0 = self.dests();
        let ddata = DecisionProcessData::new(&payload);
        let mut adv: AdvertisedRoutes<Ipv4> = AdvertisedRoutes::new();
        let mut removed: Vec<Route> = Vec::new();
        let pat_entry = PathAttributeTableEntry::new(ddata, payload.path_attrs());
        let ghost pool0 = self.pa_table@;
        let h = self.pa_table.insert(pat_entry);
        let ghost hm = h@;
        let ghost pool1 = self.pa_table@;
        assert(hm == entry_of(rx));
        assert(pool1.contains(hm));
        proof {
            assert forall|k: u64| #[trigger] m0.contains_key(k) implies {
                &&& m0[k].len() > 0
                &&& m0[k].no_duplicates()
                &&& forall|x: EntryModel| m0[k].contains(x) ==> pool1.contains(x)
            } by {
                assert forall|x: EntryModel| m0[k].contains(x) implies pool1.contains(x) by {
                    assert(referenced(m0, x));
                    assert(pool0.contains(x));
                }
            }
        }
        let routes = payload.routes();
        let version0 = self.table_version;
        let ghost skipped0 = self.skipped_routes as nat;
        let mut i: usize = 0;
        while i < routes.len()
            invariant
                i <= routes@.len(),
                routes@ == rx.routes,
                h@ == hm,
                hm == entry_of(rx),
                self.pa_table@ == pool1,
                pool1.contains(hm),
                adv.wf(),
                dests_wf(self.dests(), pool1),
                (self.dests(), adv@) == adv_all(m0, AdvModel::empty(), hm, routes@.subrange(0, i as int)),
                self.table_version == version0,
                self.skipped_routes == sat_u64(skipped0 + other_family_count(routes@.subrange(0, i as int))),
            decreases routes@.len() - i,
        {
            let r = routes[i];
            let ghost md = self.dests();
            let ghost ad = adv@;
            proof {
                assert(routes@.subrange(0, i + 1).drop_last() =~= routes@.subrange(0, i as int));
                lemma_adv_step_wf(md, ad, hm, r, pool1);
            }
            match r.prefix_v4() {
                None => {
                    self.skipped_routes = self.skipped_routes.saturating_add(1);
                },
                Some(p) => {
                    let k = key_of(p, r.prefix_len());
                    match self.table.remove(&k) {
                        None => {
                            self.table.insert(k, BgpTableEntry::new(&h));
                            adv.entry(h.pas(), r);
                            assert(self.dests() =~= md.insert(k, seq![hm]));
                        },
                        Some(mut e) => {
                            assert(e@ == md[k]);
                            let added = e.insert(&h);
                            if added {
                                if e.bestpath().same_as(&h) {
                                    adv.entry(h.pas(), r);
                                }
                            }
                            self.table.insert(k, e);
                            if added {
                                assert(self.dests() =~= md.insert(k, insert_path(md[k], hm)));
                            } else {
                                assert(self.dests() =~= md);
                            }
                        },
                    }
                },
            }
            i = i + 1;
        }
        assert(routes@.subrange(0, routes@.len() as int) =~= routes@);
        let ghost skipped1 = skipped0 + other_family_count(routes@);
        let ghost m1 = self.dests();
        let ghost a1 = adv@;
        let withdrawn = payload.withdrawn_routes();
        let p = h.peer_id();
        let mut i: usize = 0;
        while i < withdrawn.len()
            invariant
                i <= withdrawn@.len(),
                withdrawn@ == rx.withdrawn,
                p == rx.peer_id,
                h@ == hm,
                hm == entry_of(rx),
                self.pa_table@ == pool1,
                pool1.contains(hm),
                adv.wf(),
                dests_wf(self.dests(), pool1),
                (self.dests(), adv@, removed@) == wd_all(m1, a1, Seq::empty(), p, withdrawn@.subrange(0, i as int)),
                self.table_version == version0,
                self.skipped_routes == sat_u64(skipped1 + other_family_count(withdrawn@.subrange(0, i as int))),
            decreases withdrawn@.len() - i,
        {
            let r = withdrawn[i];
            let ghost md = self.dests();
            let ghost ad = adv@;
            let ghost wdn = removed@;
            proof {
                assert(withdrawn@.subrange(0, i + 1).drop_last() =~= withdrawn@.subrange(0, i as int));
                lemma_wd_step_wf(md, ad, wdn, p, r, pool1);
            }
            match r.prefix_v4() {
                None => {
                    self.skipped_routes = self.skipped_routes.saturating_add(1);
                },
                Some(x) => {
                    let k = key_of(x, r.prefix_len());
                    match self.table.remove(&k) {
                        None => {
                            assert(self.dests() =~= md);
                        },
                        Some(mut e) => {
                            assert(e@ == md[k]);
                            let was_best = e.bestpath().peer_id() == p;
                            e.remove(&h);
                            if e.is_empty() {
                                removed.push(r);
                                assert(self.dests() =~= md.remove(k));
                            } else {
                                if was_best {
                                    adv.entry(e.bestpath().pas(), r);
                                }
                                self.table.insert(k, e);
                                assert(self.dests() =~= md.insert(k, drop_peer(md[k], p)));
                            }
                        },
                    }
                },
            }
            i = i + 1;
        }
        assert(withdrawn@.subrange(0, withdrawn@.len() as int) =~= withdrawn@);
        assert(routes@.subrange(0, 0) =~= Seq::<Route>::empty());
        let ghost m2 = self.dests();
        let in_use = entries_in_use(&self.table);
        self.pa_table.remove_stale(&in_use);
        proof {
            let pool2 = self.pa_table@;
            assert(m2 == self.dests());
            assert forall|x: EntryModel| #[trigger] pool2.contains(x) <==> referenced(m2, x) by {
                if referenced(m2, x) {
                    let k = choose|k: u64| m2.contains_key(k) && (#[trigger] m2[k]).contains(x);
                    assert(pool1.contains(x));
                    assert(listed(in_use@, x));
                }
            }
            assert forall|k: u64| #[trigger] m2.contains_key(k) implies {
                &&& m2[k].len() > 0
                &&& m2[k].no_duplicates()
                &&& forall|x: EntryModel| m2[k].contains(x) ==> pool2.contains(x)
            } by {
                assert forall|x: EntryModel| m2[k].contains(x) implies pool2.contains(x) by {
                    assert(referenced(m2, x));
                }
            }
        }
        if !removed.is_empty() || !adv.is_empty() {
            self.table_version = self.table_version + 1;
        }
        proof {
            adv.lemma_keys_unique();
        }
        (removed, adv)
    }
}


/// The table key of a route, for IPv4 routes.
pub open spec fn route_key(r: Route) -> Option<u64> {
    match r@.1 {
        IpAddress::V4(p) => Some(dest_key(p, r@.0)),
        IpAddress::V6(_) => None,
    }
}

/// `h` is among the paths of destination `k`.
pub open spec fn holds_at(m: DestMap, k: u64, h: EntryModel) -> bool {
    m.contains_key(k) && m[k].contains(h)
}

proof fn lemma_adv_step_keeps(m: DestMap, a: AdvModel, h: EntryModel, r: Route)
    ensures
        forall|k: u64| holds_at(m, k, h) ==> #[trigger] holds_at(adv_step(m, a, h, r).0, k, h),
        route_key(r) matches Some(k) ==> holds_at(adv_step(m, a, h, r).0, k, h),
{
    if let IpAddress::V4(p) = r@.1 {
        let k = dest_key(p, r@.0);
        if !m.contains_key(k) {
            assert(seq![h][0] == h);
        } else if !m[k].contains(h) {
            let j = lemma_insert_path_is_insert(m[k], h);
            assert(m[k].insert(j, h)[j] == h);
        }
    }
}

proof fn lemma_adv_all_holds(m: DestMap, a: AdvModel, h: EntryModel, rs: Seq<Route>)
    ensures
        forall|i: int| 0 <= i < rs.len() && route_key(#[trigger] rs[i]) is Some ==> holds_at(
            adv_all(m, a, h, rs).0,
            route_key(rs[i])->0,
            h,
        ),
    decreases rs.len(),
{
    if rs.len() > 0 {
        let t = rs.drop_last();
        lemma_adv_all_holds(m, a, h, t);
        let (m1, a1) = adv_all(m, a, h, t);
        lemma_adv_step_keeps(m1, a1, h, rs.last());
        assert forall|i: int| 0 <= i < rs.len() && route_key(#[trigger] rs[i]) is Some implies holds_at(
            adv_all(m, a, h, rs).0,
            route_key(rs[i])->0,
            h,
        ) by {
            if i < rs.len() - 1 {
                assert(t[i] == rs[i]);
                assert(holds_at(m1, route_key(t[i])->0, h));
            }
        }
    }
}

proof fn lemma_adv_all_no_op(m: DestMap, a: AdvModel, h: EntryModel, rs: Seq<Route>)
    requires
        forall|i: int| 0 <= i < rs.len() && route_key(#[trigger] rs[i]) is Some ==> holds_at(m, route_key(rs[i])->0, h),
    ensures
        adv_all(m, a, h, rs) == (m, a),
    decreases rs.len(),
{
    if rs.len() > 0 {
        let t = rs.drop_last();
        assert forall|i: int| 0 <= i < t.len() && route_key(#[trigger] t[i]) is Some implies holds_at(m, route_key(t[i])->0, h) by {
            assert(t[i] == rs[i]);
        }
        lemma_adv_all_no_op(m, a, h, t);
        assert(route_key(rs[rs.len() - 1]) is Some ==> holds_at(m, route_key(rs[rs.len() - 1])->0, h));
    }
}

/// Re-advertising a bundle that every listed destination already holds
/// from that peer leaves the table as it is and yields an empty delta.
pub proof fn lemma_readvertise_no_op(m: DestMap, rx: ReceivedModel)
    requires
        rx.withdrawn.len() == 0,
        forall|i: int| 0 <= i < rx.routes.len() && route_key(#[trigger] rx.routes[i]) is Some ==> holds_at(
            m,
            route_key(rx.routes[i])->0,
            entry_of(rx),
        ),
    ensures
        walk_model(m, rx) == (m, Seq::<Route>::empty(), AdvModel::empty()),
{
    lemma_adv_all_no_op(m, AdvModel::empty(), entry_of(rx), rx.routes);
}

/// Sending the same announcement twice: the second walk changes nothing
/// and yields an empty delta.
pub proof fn lemma_repeat_advertisement(m: DestMap, rx: ReceivedModel)
    requires
        rx.withdrawn.len() == 0,
    ensures
        walk_model(walk_model(m, rx).0, rx) == (walk_model(m, rx).0, Seq::<Route>::empty(), AdvModel::empty()),
{
    lemma_adv_all_holds(m, AdvModel::empty(), entry_of(rx), rx.routes);
    lemma_readvertise_no_op(walk_model(m, rx).0, rx);
}

/// The IPv4 routes of a list, in order.
pub open spec fn v4_routes(rs: Seq<Route>) -> Seq<Route>
    decreases rs.len(),
{
    if rs.len() == 0 {
        rs
    } else {
        let t = v4_routes(rs.drop_last());
        if route_key(rs.last()) is Some {
            t.push(rs.last())
        } else {
            t
        }
    }
}

/// The table keys of the IPv4 routes of a list.
pub open spec fn keys_of(rs: Seq<Route>) -> Set<u64>
    decreases rs.len(),
{
    if rs.len() == 0 {
        Set::empty()
    } else {
        let t = keys_of(rs.drop_last());
        match route_key(rs.last()) {
            Some(k) => t.insert(k),
            None => t,
        }
    }
}

/// The IPv4 routes name destinations that are absent from `m`, each once.
pub open spec fn fresh_distinct(m: DestMap, rs: Seq<Route>) -> bool {
    &&& forall|i: int| 0 <= i < rs.len() && route_key(#[trigger] rs[i]) is Some ==> !m.contains_key(route_key(rs[i])->0)
    &&& forall|i: int, j: int|
        0 <= i < j < rs.len() && route_key(#[trigger] rs[i]) is Some && route_key(#[trigger] rs[j]) is Some
            ==> route_key(rs[i]) != route_key(rs[j])
}

pub open spec fn add_all(m: DestMap, h: EntryModel, ks: Set<u64>) -> DestMap {
    Map::new(|k: u64| m.contains_key(k) || ks.contains(k), |k: u64| if ks.contains(k) { seq![h] } else { m[k] })
}

pub open spec fn adv_of(h: EntryModel, vs: Seq<Route>) -> AdvModel {
    if vs.len() == 0 {
        AdvModel::empty()
    } else {
        seq![(h.raw, vs)]
    }
}

proof fn lemma_keys_of(rs: Seq<Route>)
    ensures
        forall|k: u64| #[trigger] keys_of(rs).contains(k) <==> exists|i: int| 0 <= i < rs.len() && route_key(rs[i]) == Some(k),
    decreases rs.len(),
{
    if rs.len() > 0 {
        let t = rs.drop_last();
        lemma_keys_of(t);
        assert forall|k: u64| #[trigger] keys_of(rs).contains(k) <==> exists|i: int| 0 <= i < rs.len() && route_key(rs[i]) == Some(k) by {
            if keys_of(t).contains(k) {
                let i = choose|i: int| 0 <= i < t.len() && route_key(t[i]) == Some(k);
                assert(rs[i] == t[i]);
            }
            if exists|i: int| 0 <= i < rs.len() && route_key(rs[i]) == Some(k) {
                let i = choose|i: int| 0 <= i < rs.len() && route_key(rs[i]) == Some(k);
                if i < rs.len() - 1 {
                    assert(t[i] == rs[i]);
                }
            }
        }
    }
}

proof fn lemma_adv_fresh(m: DestMap, h: EntryModel, rs: Seq<Route>)
    requires
        fresh_distinct(m, rs),
    ensures
        adv_all(m, AdvModel::empty(), h, rs) == (add_all(m, h, keys_of(rs)), adv_of(h, v4_routes(rs))),
    decreases rs.len(),
{
    if rs.len() == 0 {
        assert(add_all(m, h, Set::empty()) =~= m);
    } else {
        let t = rs.drop_last();
        let r = rs.last();
        assert(fresh_distinct(m, t)) by {
            assert forall|i: int| 0 <= i < t.len() && route_key(#[trigger] t[i]) is Some implies !m.contains_key(route_key(t[i])->0) by {
                assert(t[i] == rs[i]);
            }
            assert forall|i: int, j: int|
                0 <= i < j < t.len() && route_key(#[trigger] t[i]) is Some && route_key(#[trigger] t[j]) is Some
                    implies route_key(t[i]) != route_key(t[j]) by {
                assert(t[i] == rs[i] && t[j] == rs[j]);
            }
        }
        lemma_adv_fresh(m, h, t);
        let m1 = add_all(m, h, keys_of(t));
        let vs = v4_routes(t);
        if let Some(k) = route_key(r) {
            lemma_keys_of(t);
            assert(!keys_of(t).contains(k)) by {
                if keys_of(t).contains(k) {
                    let i = choose|i: int| 0 <= i < t.len() && route_key(t[i]) == Some(k);
                    assert(t[i] == rs[i]);
                    assert(route_key(rs[i]) != route_key(rs[rs.len() - 1]));
                }
            }
            assert(!m.contains_key(k)) by {
                assert(route_key(rs[rs.len() - 1]) is Some);
            }
            assert(!m1.contains_key(k));
            assert(m1.insert(k, seq![h]) =~= add_all(m, h, keys_of(rs)));
            if vs.len() == 0 {
                assert(group_index(AdvModel::empty(), h.raw) == -1);
                assert(v4_routes(rs) =~= seq![r]);
                assert(AdvModel::empty().push((h.raw, seq![r])) =~= adv_of(h, v4_routes(rs)));
            } else {
                let a1: AdvModel = seq![(h.raw, vs)];
                assert(a1.drop_first() =~= AdvModel::empty());
                assert(group_index(a1, h.raw) == 0);
                assert(a1.update(0, (h.raw, a1[0].1.push(r))) =~= seq![(h.raw, vs.push(r))]);
            }
        } else {
            assert(keys_of(rs) == keys_of(t));
        }
    }
}

proof fn lemma_wd_fresh(mm: DestMap, a: AdvModel, h: EntryModel, p: u32, rs: Seq<Route>)
    requires
        h.decision.peer_id == p,
        forall|i: int| 0 <= i < rs.len() && route_key(#[trigger] rs[i]) is Some ==> mm.contains_key(route_key(rs[i])->0)
            && mm[route_key(rs[i])->0] == seq![h],
        forall|i: int, j: int|
            0 <= i < j < rs.len() && route_key(#[trigger] rs[i]) is Some && route_key(#[trigger] rs[j]) is Some
                ==> route_key(rs[i]) != route_key(rs[j]),
    ensures
        wd_all(mm, a, Seq::empty(), p, rs) == (mm.remove_keys(keys_of(rs)), a, v4_routes(rs)),
    decreases rs.len(),
{
    if rs.len() == 0 {
        assert(mm.remove_keys(Set::empty()) =~= mm);
    } else {
        let t = rs.drop_last();
        let r = rs.last();
        assert forall|i: int| 0 <= i < t.len() && route_key(#[trigger] t[i]) is Some implies mm.contains_key(route_key(t[i])->0)
            && mm[route_key(t[i])->0] == seq![h] by {
            assert(t[i] == rs[i]);
        }
        assert forall|i: int, j: int|
            0 <= i < j < t.len() && route_key(#[trigger] t[i]) is Some && route_key(#[trigger] t[j]) is Some
                implies route_key(t[i]) != route_key(t[j]) by {
            assert(t[i] == rs[i] && t[j] == rs[j]);
        }
        lemma_wd_fresh(mm, a, h, p, t);
        let m1 = mm.remove_keys(keys_of(t));
        if let Some(k) = route_key(r) {
            lemma_keys_of(t);
            assert(!keys_of(t).contains(k)) by {
                if keys_of(t).contains(k) {
                    let i = choose|i: int| 0 <= i < t.len() && route_key(t[i]) == Some(k);
                    assert(t[i] == rs[i]);
                    assert(route_key(rs[i]) != route_key(rs[rs.len() - 1]));
                }
            }
            assert(route_key(rs[rs.len() - 1]) is Some);
            assert(m1.contains_key(k) && m1[k] == seq![h]);
            let f = other_peer_flags(seq![h], p);
            assert(seq![h][0] == h);
            assert(!f[0]);
            assert(!f.last());
            assert(f.drop_last() =~= Seq::<bool>::empty());
            assert(seq![h].drop_last() =~= Seq::<EntryModel>::empty());
            assert(keep_flagged(Seq::<EntryModel>::empty(), Seq::<bool>::empty()) == Seq::<EntryModel>::empty());
            assert(keep_flagged(seq![h], f) == keep_flagged(seq![h].drop_last(), f.drop_last()));
            assert(drop_peer(seq![h], p) =~= Seq::<EntryModel>::empty());
            assert(m1.remove(k) =~= mm.remove_keys(keys_of(rs)));
        } else {
            assert(keys_of(rs) == keys_of(t));
        }
    }
}

/// Announcing routes for new destinations and then withdrawing the same
/// routes from the same peer restores the destinations exactly (so the
/// destination, path and pool counts too); the withdrawal lists exactly the
/// routes that the announcement advertised.
pub proof fn lemma_advertise_then_withdraw(m0: DestMap, rx1: ReceivedModel, rx2: ReceivedModel)
    requires
        rx1.withdrawn.len() == 0,
        rx2.routes.len() == 0,
        rx2.withdrawn == rx1.routes,
        rx2.peer_id == rx1.peer_id,
        fresh_distinct(m0, rx1.routes),
    ensures
        walk_model(m0, rx1).1.len() == 0,
        walk_model(m0, rx1).2 == adv_of(entry_of(rx1), v4_routes(rx1.routes)),
        walk_model(walk_model(m0, rx1).0, rx2) == (m0, v4_routes(rx1.routes), AdvModel::empty()),
{
    let h = entry_of(rx1);
    let s = rx1.routes;
    lemma_adv_fresh(m0, h, s);
    let m1 = add_all(m0, h, keys_of(s));
    let a1 = adv_of(h, v4_routes(s));
    lemma_keys_of(s);
    assert forall|i: int| 0 <= i < s.len() && route_key(#[trigger] s[i]) is Some implies m1.contains_key(route_key(s[i])->0)
        && m1[route_key(s[i])->0] == seq![h] by {
        assert(keys_of(s).contains(route_key(s[i])->0));
    }
    assert(adv_all(m1, AdvModel::empty(), entry_of(rx2), rx2.routes) == (m1, AdvModel::empty()));
    lemma_wd_fresh(m1, AdvModel::empty(), h, rx1.peer_id, s);
    assert(m1.remove_keys(keys_of(s)) =~= m0) by {
        assert forall|k: u64| keys_of(s).contains(k) implies !m0.contains_key(k) by {
            let i = choose|i: int| 0 <= i < s.len() && route_key(s[i]) == Some(k);
            assert(route_key(s[i]) is Some);
        }
    }
}


/// The table-level form of announcing and then withdrawing routes for new
/// destinations from one peer: a table whose destinations are what the two
/// walks leave has the destinations, and so the path and destination
/// counts, of the table before, and a pool of the same size.
pub proof fn lemma_walk_round_trip_counts<A>(
    t0: &BgpTable<A>,
    t2: &BgpTable<A>,
    rx1: ReceivedModel,
    rx2: ReceivedModel,
)
    requires
        t0.wf(),
        t2.wf(),
        rx1.withdrawn.len() == 0,
        rx2.routes.len() == 0,
        rx2.withdrawn == rx1.routes,
        rx2.peer_id == rx1.peer_id,
        fresh_distinct(t0.dests(), rx1.routes),
        t2.dests() == walk_model(walk_model(t0.dests(), rx1).0, rx2).0,
    ensures
        t2.dests() == t0.dests(),
        total_paths(t2.dests()) == total_paths(t0.dests()),
        t2.dests().dom().len() == t0.dests().dom().len(),
        t2.pool().len() == t0.pool().len(),
{
    lemma_advertise_then_withdraw(t0.dests(), rx1, rx2);
    lemma_pool_size_follows_dests(t0, t2);
}

} // verus!
