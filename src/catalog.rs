//! The application catalog: items keyed by display name, kept in ascending
//! name order, where a later entry of a name replaces the earlier one.
use vstd::prelude::*;
use crate::app_info::{AppInfo, AppInfoView, ItemType, items_view};
use crate::entry::{entry_of, parse_desktop_entry};
use crate::text::chars_of;

verus! {

/// Lexicographic order on character sequences, by code point; a proper
/// prefix comes first. This is the order of `String`'s `cmp`.
pub open spec fn seq_lt(a: Seq<char>, b: Seq<char>) -> bool
    decreases a.len(),
{
    if a.len() == 0 {
        b.len() > 0
    } else if b.len() == 0 {
        false
    } else if a[0] != b[0] {
        a[0] < b[0]
    } else {
        seq_lt(a.drop_first(), b.drop_first())
    }
}

pub proof fn lemma_seq_lt_irreflexive(a: Seq<char>)
    ensures
        !seq_lt(a, a),
    decreases a.len(),
{
    if a.len() > 0 {
        lemma_seq_lt_irreflexive(a.drop_first());
    }
}

pub proof fn lemma_seq_lt_transitive(a: Seq<char>, b: Seq<char>, c: Seq<char>)
    requires
        seq_lt(a, b),
        seq_lt(b, c),
    ensures
        seq_lt(a, c),
    decreases a.len(),
{
    if a.len() > 0 && b.len() > 0 && c.len() > 0 {
        if a[0] == b[0] && b[0] == c[0] {
            lemma_seq_lt_transitive(a.drop_first(), b.drop_first(), c.drop_first());
        }
    }
}

pub proof fn lemma_seq_lt_total(a: Seq<char>, b: Seq<char>)
    ensures
        a == b || seq_lt(a, b) || seq_lt(b, a),
    decreases a.len(),
{
    if a.len() == 0 && b.len() == 0 {
        assert(a =~= b);
    } else if a.len() > 0 && b.len() > 0 && a[0] == b[0] {
        lemma_seq_lt_total(a.drop_first(), b.drop_first());
        if a.drop_first() == b.drop_first() {
            assert(a =~= seq![a[0]] + a.drop_first());
            assert(b =~= seq![b[0]] + b.drop_first());
        }
    } else if a.len() > 0 && b.len() > 0 {
        assert(a[0] != b[0]);
    }
}

/// Names strictly ascending, and every item an application without a path.
pub open spec fn catalog_wf(s: Seq<AppInfoView>) -> bool {
    &&& forall|i: int, j: int| 0 <= i < j < s.len() ==> seq_lt(#[trigger] s[i].name, #[trigger] s[j].name)
    &&& forall|i: int|
        0 <= i < s.len() ==> (#[trigger] s[i]).item_type == ItemType::Application
            && s[i].file_path is None
}

/// The first index at or after `i` whose name is not below `n`.
pub open spec fn lower_bound(s: Seq<AppInfoView>, n: Seq<char>, i: int) -> int
    decreases s.len() - i,
{
    if i < 0 || i >= s.len() || !seq_lt(s[i].name, n) {
        i
    } else {
        lower_bound(s, n, i + 1)
    }
}

/// The catalog `s` with `x` put in its place by name, replacing an item of
/// the same name.
pub open spec fn inserted(s: Seq<AppInfoView>, x: AppInfoView) -> Seq<AppInfoView> {
    let p = lower_bound(s, x.name, 0);
    if p < s.len() && s[p].name == x.name {
        s.update(p, x)
    } else {
        s.insert(p, x)
    }
}

/// The catalog built from entry documents in scan order.
pub open spec fn catalog_of(contents: Seq<Seq<char>>) -> Seq<AppInfoView>
    decreases contents.len(),
{
    if contents.len() == 0 {
        seq![]
    } else {
        let c = catalog_of(contents.drop_last());
        match entry_of(contents.last()) {
            Some(x) => inserted(c, x),
            None => c,
        }
    }
}

proof fn lemma_lower_bound(s: Seq<AppInfoView>, n: Seq<char>, i: int)
    requires
        0 <= i <= s.len(),
    ensures
        i <= lower_bound(s, n, i) <= s.len(),
        forall|k: int| i <= k < lower_bound(s, n, i) ==> seq_lt(#[trigger] s[k].name, n),
        lower_bound(s, n, i) < s.len() ==> !seq_lt(s[lower_bound(s, n, i)].name, n),
    decreases s.len() - i,
{
    if i < s.len() && seq_lt(s[i].name, n) {
        lemma_lower_bound(s, n, i + 1);
    }
}

/// Putting an application in its place keeps the catalog well formed, and
/// the item stands at the place found.
pub proof fn lemma_inserted_wf(s: Seq<AppInfoView>, x: AppInfoView)
    requires
        catalog_wf(s),
        x.item_type == ItemType::Application,
        x.file_path is None,
    ensures
        catalog_wf(inserted(s, x)),
        inserted(s, x)[lower_bound(s, x.name, 0)] == x,
        0 <= lower_bound(s, x.name, 0) < inserted(s, x).len(),
{
    let p = lower_bound(s, x.name, 0);
    lemma_lower_bound(s, x.name, 0);
    let r = inserted(s, x);
    if p < s.len() && s[p].name == x.name {
        assert forall|i: int, j: int| 0 <= i < j < r.len() implies seq_lt(
            #[trigger] r[i].name,
            #[trigger] r[j].name,
        ) by {
            assert(r[i].name == s[i].name);
            assert(r[j].name == s[j].name);
        }
    } else {
        if p < s.len() {
            lemma_seq_lt_total(s[p].name, x.name);
        }
        assert forall|i: int, j: int| 0 <= i < j < r.len() implies seq_lt(
            #[trigger] r[i].name,
            #[trigger] r[j].name,
        ) by {
            if j < p {
            } else if j == p {
                assert(r[i] == s[i]);
            } else if i < p {
                assert(r[j] == s[j - 1]);
                if j - 1 > p {
                    lemma_seq_lt_transitive(x.name, s[p].name, s[j - 1].name);
                }
                lemma_seq_lt_transitive(s[i].name, x.name, s[j - 1].name);
            } else if i == p {
                assert(r[j] == s[j - 1]);
                if j - 1 > p {
                    lemma_seq_lt_transitive(x.name, s[p].name, s[j - 1].name);
                }
            } else {
                assert(r[i] == s[i - 1]);
                assert(r[j] == s[j - 1]);
            }
        }
    }
}

proof fn lemma_catalog_of_wf(contents: Seq<Seq<char>>)
    ensures
        catalog_wf(catalog_of(contents)),
    decreases contents.len(),
{
    if contents.len() > 0 {
        lemma_catalog_of_wf(contents.drop_last());
        match entry_of(contents.last()) {
            Some(x) => lemma_inserted_wf(catalog_of(contents.drop_last()), x),
            None => {},
        }
    }
}

proof fn lemma_inserted_keeps_other_names(s: Seq<AppInfoView>, x: AppInfoView, b: AppInfoView)
    requires
        exists|i: int| 0 <= i < s.len() && s[i] == b,
        x.name != b.name,
    ensures
        exists|i: int| 0 <= i < inserted(s, x).len() && inserted(s, x)[i] == b,
{
    let i = choose|i: int| 0 <= i < s.len() && s[i] == b;
    let p = lower_bound(s, x.name, 0);
    lemma_lower_bound(s, x.name, 0);
    let r = inserted(s, x);
    if p < s.len() && s[p].name == x.name {
        assert(r[i] == b);
    } else if i < p {
        assert(r[i] == b);
    } else {
        assert(r[i + 1] == b);
    }
}

proof fn lemma_entry_survives(contents: Seq<Seq<char>>, j: int, m: int, b: AppInfoView)
    requires
        0 <= j < m <= contents.len(),
        entry_of(contents[j]) == Some(b),
        forall|k: int|
            j < k < contents.len() ==> ((#[trigger] entry_of(contents[k])) matches Some(y)
                ==> y.name != b.name),
    ensures
        exists|i: int|
            0 <= i < catalog_of(contents.take(m)).len() && catalog_of(contents.take(m))[i] == b,
    decreases m - j,
{
    let t = contents.take(m);
    assert(t.drop_last() =~= contents.take(m - 1));
    assert(t.last() == contents[m - 1]);
    lemma_catalog_of_wf(contents.take(m - 1));
    let prev = catalog_of(contents.take(m - 1));
    if m - 1 == j {
        lemma_inserted_wf(prev, b);
        assert(catalog_of(t) == inserted(prev, b));
        assert(catalog_of(t)[lower_bound(prev, b.name, 0)] == b);
    } else {
        lemma_entry_survives(contents, j, m - 1, b);
        match entry_of(contents[m - 1]) {
            Some(y) => {
                assert(y.name != b.name);
                lemma_inserted_keeps_other_names(prev, y, b);
                assert(catalog_of(t) == inserted(prev, y));
            },
            None => {
                assert(catalog_of(t) == prev);
            },
        }
    }
}

/// A later entry of a name shadows every earlier one: where entry `j` is
/// the last accepted entry of its name in scan order, the catalog holds
/// exactly one item of that name, and it is that entry's item.
pub proof fn lemma_last_entry_of_a_name_wins(contents: Seq<Seq<char>>, j: int)
    requires
        0 <= j < contents.len(),
        entry_of(contents[j]) is Some,
        forall|k: int|
            j < k < contents.len() ==> ((#[trigger] entry_of(contents[k])) matches Some(y)
                ==> y.name != entry_of(contents[j])->Some_0.name),
    ensures
        ({
            let b = entry_of(contents[j])->Some_0;
            let c = catalog_of(contents);
            &&& exists|i: int| 0 <= i < c.len() && c[i] == b
            &&& forall|i: int, k: int|
                0 <= i < c.len() && 0 <= k < c.len() && c[i].name == b.name && c[k].name == b.name
                    ==> i == k
        }),
{
    let b = entry_of(contents[j])->Some_0;
    lemma_entry_survives(contents, j, contents.len() as int, b);
    assert(contents.take(contents.len() as int) =~= contents);
    let c = catalog_of(contents);
    lemma_catalog_of_wf(contents);
    assert forall|i: int, k: int|
        0 <= i < c.len() && 0 <= k < c.len() && c[i].name == b.name && c[k].name == b.name
            implies i == k by {
        if i < k {
            assert(seq_lt(c[i].name, c[k].name));
            lemma_seq_lt_irreflexive(b.name);
        } else if k < i {
            assert(seq_lt(c[k].name, c[i].name));
            lemma_seq_lt_irreflexive(b.name);
        }
    }
}

/// Whether `a` comes before `b` in lexicographic order.
pub fn name_lt(a: &Vec<char>, b: &Vec<char>) -> (r: bool)
    ensures
        r == seq_lt(a@, b@),
{
    let mut i: usize = 0;
    assert(a@.skip(0) =~= a@);
    assert(b@.skip(0) =~= b@);
    while i < a.len() && i < b.len() && a[i] == b[i]
        invariant
            i <= a@.len(),
            i <= b@.len(),
            seq_lt(a@, b@) == seq_lt(a@.skip(i as int), b@.skip(i as int)),
        decreases a@.len() - i,
    {
        assert(a@.skip(i as int).drop_first() =~= a@.skip(i + 1 as int));
        assert(b@.skip(i as int).drop_first() =~= b@.skip(i + 1 as int));
        i = i + 1;
    }
    if i == a.len() {
        i < b.len()
    } else if i == b.len() {
        false
    } else {
        a[i] < b[i]
    }
}

/// The application catalog.
pub struct Catalog {
    entries: Vec<AppInfo>,
}

impl View for Catalog {
    type V = Seq<AppInfoView>;

    closed spec fn view(&self) -> Seq<AppInfoView> {
        items_view(self.entries@)
    }
}

impl Catalog {
    pub open spec fn wf(&self) -> bool {
        catalog_wf(self@)
    }

    /// An empty catalog.
    pub fn new() -> (r: Catalog)
        ensures
            r@ == Seq::<AppInfoView>::empty(),
            r.wf(),
    {
        let r = Catalog { entries: Vec::new() };
        assert(r@ =~= Seq::<AppInfoView>::empty());
        r
    }

    pub fn len(&self) -> (r: usize)
        ensures
            r == self@.len(),
    {
        self.entries.len()
    }

    /// The item at index `i`, in ascending name order.
    pub fn get(&self, i: usize) -> (r: &AppInfo)
        requires
            i < self@.len(),
        ensures
            r@ == self@[i as int],
    {
        &self.entries[i]
    }

    /// Puts an application in its place by name, replacing an item of the
    /// same name.
    pub fn insert(&mut self, item: AppInfo)
        requires
            old(self).wf(),
            item@.item_type == ItemType::Application,
            item@.file_path is None,
        ensures
            final(self)@ == inserted(old(self)@, item@),
            final(self).wf(),
    {
        let ghost s = self@;
        let n = chars_of(item.name.as_str());
        let mut p: usize = 0;
        proof {
            lemma_lower_bound(s, item@.name, 0);
        }
        while p < self.entries.len() && name_lt(&chars_of(self.entries[p].name.as_str()), &n)
            invariant
                p <= self.entries@.len(),
                s == self@,
                n@ == item@.name,
                lower_bound(s, n@, 0) == lower_bound(s, n@, p as int),
            decreases self.entries@.len() - p,
        {
            assert(self.entries@[p as int]@ == s[p as int]);
            p = p + 1;
        }
        proof {
            if p < s.len() {
                assert(self.entries@[p as int]@ == s[p as int]);
            }
            lemma_inserted_wf(s, item@);
        }
        if p < self.entries.len() && self.entries[p].name == item.name {
            self.entries.set(p, item);
        } else {
            self.entries.insert(p, item);
        }
        assert(self@ =~= inserted(s, item@));
    }
}

/// Builds the catalog from entry documents in scan order: each accepted
/// entry is put in its place by name, a later one replacing an earlier one
/// of the same name; rejected entries are skipped.
pub fn build_catalog(contents: &Vec<String>) -> (r: Catalog)
    ensures
        r@ == catalog_of(contents.deep_view()),
        r.wf(),
{
    let mut c = Catalog::new();
    let mut i: usize = 0;
    while i < contents.len()
        invariant
            i <= contents@.len(),
            c.wf(),
            c@ == catalog_of(contents.deep_view().take(i as int)),
        decreases contents@.len() - i,
    {
        let ghost prefix = contents.deep_view().take(i + 1 as int);
        assert(prefix.drop_last() =~= contents.deep_view().take(i as int));
        assert(prefix.last() == contents@[i as int]@);
        match parse_desktop_entry(contents[i].as_str()) {
            Ok(item) => {
                c.insert(item);
            },
            Err(_) => {},
        }
        i = i + 1;
    }
    assert(contents.deep_view().take(contents@.len() as int) =~= contents.deep_view());
    c
}

} // verus!
