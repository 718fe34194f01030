//! Totals per exporter and per process.
use crate::info::types::{
    BufferSummary, DebugfsBufEntry, DmaBufInfo, ExporterTotals, ProcessBufEntry, ProcessSummary,
    ProcessTotals,
};
use crate::order::{
    insert_name, lemma_insert_name, lemma_insert_name_sorted, lemma_text_order, names_sorted,
    string_less, text_less,
};
use crate::text::same_string;
use vstd::prelude::*;

verus! {

/// One buffer as its exporter's totals see it.
#[verifier::ext_equal]
pub ghost struct Usage {
    pub name: Seq<char>,
    pub size: nat,
    pub refs: int,
}

/// How many buffers an exporter has.
pub open spec fn count_of(u: Seq<Usage>, name: Seq<char>) -> nat
    decreases u.len(),
{
    if u.len() == 0 {
        0
    } else {
        count_of(u.drop_last(), name) + if u.last().name == name {
            1nat
        } else {
            0nat
        }
    }
}

/// The size of an exporter's buffers.
pub open spec fn size_of(u: Seq<Usage>, name: Seq<char>) -> nat
    decreases u.len(),
{
    if u.len() == 0 {
        0
    } else {
        size_of(u.drop_last(), name) + if u.last().name == name {
            u.last().size
        } else {
            0
        }
    }
}

/// The references to an exporter's buffers.
pub open spec fn refs_of(u: Seq<Usage>, name: Seq<char>) -> int
    decreases u.len(),
{
    if u.len() == 0 {
        0
    } else {
        refs_of(u.drop_last(), name) + if u.last().name == name {
            u.last().refs
        } else {
            0
        }
    }
}

/// The exporters, each once, in dictionary order.
pub open spec fn names_of(u: Seq<Usage>) -> Seq<Seq<char>>
    decreases u.len(),
{
    if u.len() == 0 {
        Seq::empty()
    } else {
        insert_name(names_of(u.drop_last()), u.last().name)
    }
}

/// The totals of each exporter, in dictionary order of their names.
pub open spec fn exporter_totals(u: Seq<Usage>) -> Seq<ExporterTotals> {
    Seq::new(
        names_of(u).len(),
        |i: int|
            ExporterTotals {
                name: names_of(u)[i],
                count: count_of(u, names_of(u)[i]),
                size: size_of(u, names_of(u)[i]),
                refs: refs_of(u, names_of(u)[i]),
            },
    )
}

/// Every running total fits its machine integer.
pub open spec fn totals_fit(u: Seq<Usage>) -> bool {
    forall|n: int, name: Seq<char>|
        #![trigger size_of(u.take(n), name)]
        #![trigger refs_of(u.take(n), name)]
        0 <= n <= u.len() ==> size_of(u.take(n), name) <= u64::MAX && i64::MIN <= refs_of(
            u.take(n),
            name,
        ) <= i64::MAX
}

/// A buffer as the exporters' totals read it.
struct Item<'a> {
    name: &'a str,
    size: u64,
    refs: i64,
}

spec fn usages(v: Seq<Item<'_>>) -> Seq<Usage> {
    Seq::new(
        v.len(),
        |i: int| Usage { name: v[i].name@, size: v[i].size as nat, refs: v[i].refs as int },
    )
}

spec fn names(v: Seq<&str>) -> Seq<Seq<char>> {
    Seq::new(v.len(), |i: int| v[i]@)
}

fn sorted_names<'a>(items: &Vec<Item<'a>>) -> (r: Vec<&'a str>)
    ensures
        names(r@) == names_of(usages(items@)),
{
    let ghost u = usages(items@);
    let mut r: Vec<&'a str> = Vec::new();
    let mut i: usize = 0;
    assert(names(r@) =~= names_of(u.take(0)));
    while i < items.len()
        invariant
            i <= items@.len(),
            u == usages(items@),
            names(r@) == names_of(u.take(i as int)),
        decreases items@.len() - i,
    {
        let x: &'a str = items[i].name;
        let ghost t = u.take(i + 1);
        assert(t.drop_last() =~= u.take(i as int));
        assert(t.last() == u[i as int]);
        let mut j: usize = 0;
        while j < r.len() && string_less(r[j], x)
            invariant
                j <= r@.len(),
                forall|k: int| 0 <= k < j ==> text_less(#[trigger] names(r@)[k], x@),
            decreases r@.len() - j,
        {
            j = j + 1;
        }
        proof {
            lemma_insert_name(names(r@), x@, j as int);
        }
        let ghost before = r@;
        if j == r.len() || !same_string(r[j], x) {
            r.insert(j, x);
            assert(names(r@) =~= names(before).take(j as int) + seq![x@] + names(before).skip(
                j as int,
            ));
        }
        i = i + 1;
    }
    assert(u.take(u.len() as int) =~= u);
    r
}

fn totals_by_exporter(items: &Vec<Item<'_>>) -> (r: Vec<BufferSummary>)
    requires
        totals_fit(usages(items@)),
    ensures
        summaries(r@) == exporter_totals(usages(items@)),
{
    let ghost u = usages(items@);
    let sorted = sorted_names(items);
    let mut r: Vec<BufferSummary> = Vec::new();
    let mut i: usize = 0;
    while i < sorted.len()
        invariant
            i <= sorted@.len(),
            u == usages(items@),
            totals_fit(u),
            names(sorted@) == names_of(u),
            summaries(r@) == exporter_totals(u).take(i as int),
        decreases sorted@.len() - i,
    {
        let name: &str = sorted[i];
        assert(name@ == names_of(u)[i as int]);
        let mut count: usize = 0;
        let mut size: u64 = 0;
        let mut refs: i64 = 0;
        let mut k: usize = 0;
        while k < items.len()
            invariant
                k <= items@.len(),
                u == usages(items@),
                totals_fit(u),
                count <= k,
                count == count_of(u.take(k as int), name@),
                size == size_of(u.take(k as int), name@),
                refs == refs_of(u.take(k as int), name@),
            decreases items@.len() - k,
        {
            let ghost t = u.take(k + 1);
            assert(t.drop_last() =~= u.take(k as int));
            assert(t.last() == u[k as int]);
            assert(size_of(t, name@) <= u64::MAX);
            if same_string(items[k].name, name) {
                count = count + 1;
                size = size + items[k].size;
                refs = refs + items[k].refs;
            }
            k = k + 1;
        }
        assert(u.take(u.len() as int) =~= u);
        let ghost before = r@;
        let summary = BufferSummary {
            exporter_name: name.to_owned(),
            count,
            total_size_bytes: size,
            total_refcount: refs,
        };
        assert(summary@ =~= exporter_totals(u)[i as int]);
        r.push(summary);
        assert(summaries(r@) =~= summaries(before).push(summary@));
        assert(exporter_totals(u).take(i + 1) =~= exporter_totals(u).take(i as int).push(
            exporter_totals(u)[i as int],
        ));
        i = i + 1;
    }
    assert(exporter_totals(u).take(exporter_totals(u).len() as int) =~= exporter_totals(u));
    r
}

/// The contents of a sequence of summaries.
pub open spec fn summaries(v: Seq<BufferSummary>) -> Seq<ExporterTotals> {
    Seq::new(v.len(), |i: int| v[i]@)
}

/// The buffers of the kernel's list as the totals see them.
pub open spec fn debugfs_usage(entries: Seq<DebugfsBufEntry>) -> Seq<Usage> {
    Seq::new(
        entries.len(),
        |i: int|
            Usage {
                name: entries[i].exp_name@,
                size: entries[i].size as nat,
                refs: entries[i].count as int,
            },
    )
}

/// Totals of the kernel's buffer list, by exporter.
pub fn aggregate_debugfs(entries: &[DebugfsBufEntry]) -> (r: Vec<BufferSummary>)
    requires
        totals_fit(debugfs_usage(entries@)),
    ensures
        summaries(r@) == exporter_totals(debugfs_usage(entries@)),
{
    let mut items: Vec<Item<'_>> = Vec::new();
    let mut i: usize = 0;
    while i < entries.len()
        invariant
            i <= entries@.len(),
            usages(items@) == debugfs_usage(entries@).take(i as int),
        decreases entries@.len() - i,
    {
        let ghost before = items@;
        items.push(
            Item {
                name: entries[i].exp_name.as_str(),
                size: entries[i].size,
                refs: entries[i].count,
            },
        );
        assert(usages(items@) =~= usages(before).push(debugfs_usage(entries@)[i as int]));
        i = i + 1;
    }
    assert(debugfs_usage(entries@).take(entries@.len() as int) =~= debugfs_usage(entries@));
    totals_by_exporter(&items)
}

/// The buffers of the sysfs directory as the totals see them: it counts no references.
pub open spec fn sysfs_usage(buffers: Seq<DmaBufInfo>) -> Seq<Usage> {
    Seq::new(
        buffers.len(),
        |i: int|
            Usage { name: buffers[i].exporter_name@, size: buffers[i].size as nat, refs: 0 },
    )
}

/// Totals of the sysfs buffer directory, by exporter.
pub fn aggregate_sysfs(buffers: &[DmaBufInfo]) -> (r: Vec<BufferSummary>)
    requires
        totals_fit(sysfs_usage(buffers@)),
    ensures
        summaries(r@) == exporter_totals(sysfs_usage(buffers@)),
{
    let mut items: Vec<Item<'_>> = Vec::new();
    let mut i: usize = 0;
    while i < buffers.len()
        invariant
            i <= buffers@.len(),
            usages(items@) == sysfs_usage(buffers@).take(i as int),
        decreases buffers@.len() - i,
    {
        let ghost before = items@;
        items.push(
            Item { name: buffers[i].exporter_name.as_str(), size: buffers[i].size, refs: 0 },
        );
        assert(usages(items@) =~= usages(before).push(sysfs_usage(buffers@)[i as int]));
        i = i + 1;
    }
    assert(sysfs_usage(buffers@).take(buffers@.len() as int) =~= sysfs_usage(buffers@));
    totals_by_exporter(&items)
}

/// The size of all buffers together.
pub open spec fn total_size(u: Seq<Usage>) -> nat
    decreases u.len(),
{
    if u.len() == 0 {
        0
    } else {
        total_size(u.drop_last()) + u.last().size
    }
}

/// The size of all buffers of the kernel's list.
pub fn debugfs_total_size(entries: &[DebugfsBufEntry]) -> (r: u64)
    requires
        total_size(debugfs_usage(entries@)) <= u64::MAX,
    ensures
        r == total_size(debugfs_usage(entries@)),
{
    let ghost u = debugfs_usage(entries@);
    let mut r: u64 = 0;
    let mut i: usize = 0;
    while i < entries.len()
        invariant
            i <= entries@.len(),
            u == debugfs_usage(entries@),
            total_size(u) <= u64::MAX,
            r == total_size(u.take(i as int)),
        decreases entries@.len() - i,
    {
        proof {
            lemma_total_grows(u, i + 1);
            assert(u.take(i + 1).drop_last() =~= u.take(i as int));
        }
        r = r + entries[i].size;
        i = i + 1;
    }
    assert(u.take(u.len() as int) =~= u);
    r
}

/// The size of all buffers of the sysfs directory.
pub fn sysfs_total_size(buffers: &[DmaBufInfo]) -> (r: u64)
    requires
        total_size(sysfs_usage(buffers@)) <= u64::MAX,
    ensures
        r == total_size(sysfs_usage(buffers@)),
{
    let ghost u = sysfs_usage(buffers@);
    let mut r: u64 = 0;
    let mut i: usize = 0;
    while i < buffers.len()
        invariant
            i <= buffers@.len(),
            u == sysfs_usage(buffers@),
            total_size(u) <= u64::MAX,
            r == total_size(u.take(i as int)),
        decreases buffers@.len() - i,
    {
        proof {
            lemma_total_grows(u, i + 1);
            assert(u.take(i + 1).drop_last() =~= u.take(i as int));
        }
        r = r + buffers[i].size;
        i = i + 1;
    }
    assert(u.take(u.len() as int) =~= u);
    r
}

/// A part of the buffers is no larger than all of them.
pub proof fn lemma_total_grows(u: Seq<Usage>, n: int)
    requires
        0 <= n <= u.len(),
    ensures
        total_size(u.take(n)) <= total_size(u),
    decreases u.len() - n,
{
    if n < u.len() {
        lemma_total_grows(u, n + 1);
        assert(u.take(n + 1).drop_last() =~= u.take(n));
    } else {
        assert(u.take(n) =~= u);
    }
}

/// The exporters of a list of buffers stand in strict dictionary order, so none
/// occurs twice; and those listed are just those that have a buffer.
pub proof fn law_exporters_sorted_and_complete(u: Seq<Usage>)
    ensures
        names_sorted(names_of(u)),
        forall|name: Seq<char>|
            #![trigger names_of(u).contains(name)]
            #![trigger count_of(u, name)]
            names_of(u).contains(name) <==> count_of(u, name) > 0,
    decreases u.len(),
{
    if u.len() > 0 {
        let w = u.drop_last();
        law_exporters_sorted_and_complete(w);
        lemma_insert_name_sorted(names_of(w), u.last().name);
    }
}

/// The counts of the given exporters, summed.
pub open spec fn sum_counts(u: Seq<Usage>, l: Seq<Seq<char>>) -> nat
    decreases l.len(),
{
    if l.len() == 0 {
        0
    } else {
        sum_counts(u, l.drop_last()) + count_of(u, l.last())
    }
}

/// The sizes of the given exporters, summed.
pub open spec fn sum_sizes(u: Seq<Usage>, l: Seq<Seq<char>>) -> nat
    decreases l.len(),
{
    if l.len() == 0 {
        0
    } else {
        sum_sizes(u, l.drop_last()) + size_of(u, l.last())
    }
}

/// One more buffer adds to the sums of a sorted list just once.
proof fn lemma_sums_step(u: Seq<Usage>, l: Seq<Seq<char>>)
    requires
        u.len() > 0,
        names_sorted(l),
    ensures
        sum_counts(u, l) == sum_counts(u.drop_last(), l) + if l.contains(u.last().name) {
            1nat
        } else {
            0nat
        },
        sum_sizes(u, l) == sum_sizes(u.drop_last(), l) + if l.contains(u.last().name) {
            u.last().size
        } else {
            0
        },
    decreases l.len(),
{
    if l.len() > 0 {
        let m = l.drop_last();
        assert(names_sorted(m));
        lemma_sums_step(u, m);
        let x = u.last().name;
        if l.last() == x {
            assert(l.contains(x)) by {
                assert(l[l.len() - 1] == x);
            }
            assert(!m.contains(x)) by {
                if m.contains(x) {
                    let k = choose|k: int| 0 <= k < m.len() && m[k] == x;
                    assert(text_less(l[k], l[l.len() - 1]));
                    lemma_text_order(x, x);
                }
            }
        } else {
            if l.contains(x) {
                let k = choose|k: int| 0 <= k < l.len() && l[k] == x;
                assert(m[k] == x);
            }
            if m.contains(x) {
                let k = choose|k: int| 0 <= k < m.len() && m[k] == x;
                assert(l[k] == x);
            }
        }
    }
}

proof fn lemma_sums(u: Seq<Usage>, l: Seq<Seq<char>>)
    requires
        names_sorted(l),
        forall|name: Seq<char>| count_of(u, name) > 0 ==> l.contains(name),
    ensures
        sum_counts(u, l) == u.len(),
        sum_sizes(u, l) == total_size(u),
    decreases u.len(),
{
    if u.len() > 0 {
        let w = u.drop_last();
        assert forall|name: Seq<char>| count_of(w, name) > 0 implies l.contains(name) by {
            assert(count_of(u, name) > 0);
        }
        lemma_sums(w, l);
        lemma_sums_step(u, l);
        assert(count_of(u, u.last().name) > 0);
    } else {
        lemma_sums_empty(u, l);
    }
}

proof fn lemma_sums_empty(u: Seq<Usage>, l: Seq<Seq<char>>)
    requires
        u.len() == 0,
    ensures
        sum_counts(u, l) == 0,
        sum_sizes(u, l) == 0,
    decreases l.len(),
{
    if l.len() > 0 {
        lemma_sums_empty(u, l.drop_last());
    }
}

/// No buffer is lost or counted twice: the exporters' counts add up to the number
/// of buffers, and their sizes to the size of all buffers.
pub proof fn law_exporter_totals_add_up(u: Seq<Usage>)
    ensures
        sum_counts(u, names_of(u)) == u.len(),
        sum_sizes(u, names_of(u)) == total_size(u),
{
    law_exporters_sorted_and_complete(u);
    lemma_sums(u, names_of(u));
}

/// What a buffer adds to an exporter's totals: one to the number, its size and its
/// references, or nothing.
pub open spec fn share_of(x: Usage, name: Seq<char>) -> (nat, nat, int) {
    if x.name == name {
        (1, x.size, x.refs)
    } else {
        (0, 0, 0)
    }
}

/// Taking a buffer out takes out its share.
proof fn lemma_share<T>(q: Seq<T>, j: int, f: spec_fn(T) -> Usage, name: Seq<char>)
    requires
        0 <= j < q.len(),
    ensures
        ({
            let u = q.map_values(f);
            let w = q.remove(j).map_values(f);
            let x = share_of(f(q[j]), name);
            &&& count_of(u, name) == count_of(w, name) + x.0
            &&& size_of(u, name) == size_of(w, name) + x.1
            &&& refs_of(u, name) == refs_of(w, name) + x.2
        }),
    decreases q.len(),
{
    let u = q.map_values(f);
    let w = q.remove(j).map_values(f);
    assert(u.drop_last() =~= q.drop_last().map_values(f));
    if j == q.len() - 1 {
        assert(q.remove(j) =~= q.drop_last());
    } else {
        lemma_share(q.drop_last(), j, f, name);
        assert(q.drop_last().remove(j) =~= q.remove(j).drop_last());
        assert(w.drop_last() =~= q.remove(j).drop_last().map_values(f));
        assert(q.remove(j).last() == q.last());
    }
}

/// The totals of an exporter do not depend on the order of the buffers.
proof fn lemma_any_order<T>(p: Seq<T>, q: Seq<T>, f: spec_fn(T) -> Usage, name: Seq<char>)
    requires
        p.to_multiset() == q.to_multiset(),
    ensures
        count_of(p.map_values(f), name) == count_of(q.map_values(f), name),
        size_of(p.map_values(f), name) == size_of(q.map_values(f), name),
        refs_of(p.map_values(f), name) == refs_of(q.map_values(f), name),
    decreases p.len(),
{
    p.to_multiset_ensures();
    q.to_multiset_ensures();
    if p.len() > 0 {
        let last = p.len() - 1;
        let x = p[last];
        assert(p.contains(x));
        assert(q.to_multiset().count(x) > 0);
        assert(q.contains(x));
        let j = choose|j: int| 0 <= j < q.len() && q[j] == x;
        assert(p.remove(last).to_multiset() == q.remove(j).to_multiset());
        lemma_share(p, last, f, name);
        lemma_share(q, j, f, name);
        lemma_any_order(p.remove(last), q.remove(j), f, name);
    } else {
        assert(p.map_values(f) =~= q.map_values(f));
    }
}

/// Names in strict dictionary order are known from which they are.
proof fn lemma_sorted_same(a: Seq<Seq<char>>, b: Seq<Seq<char>>)
    requires
        names_sorted(a),
        names_sorted(b),
        forall|name: Seq<char>| a.contains(name) <==> #[trigger] b.contains(name),
    ensures
        a == b,
    decreases a.len(),
{
    if a.len() == 0 {
        if b.len() > 0 {
            assert(b.contains(b[0]));
        }
        assert(a =~= b);
    } else {
        let x = a.last();
        assert(a.contains(x));
        assert(b.contains(x));
        let y = b.last();
        assert(b.contains(y));
        assert(a.contains(y));
        let k = choose|k: int| 0 <= k < b.len() && b[k] == x;
        let m = choose|m: int| 0 <= m < a.len() && a[m] == y;
        lemma_text_order(x, y);
        lemma_text_order(y, x);
        if k < b.len() - 1 {
            assert(text_less(b[k], b[b.len() - 1]));
            if m < a.len() - 1 {
                assert(text_less(a[m], a[a.len() - 1]));
            }
            assert(false);
        }
        assert(x == y);
        let c = a.drop_last();
        let d = b.drop_last();
        assert forall|name: Seq<char>| c.contains(name) <==> #[trigger] d.contains(name) by {
            lemma_text_order(name, x);
            if c.contains(name) {
                let i = choose|i: int| 0 <= i < c.len() && c[i] == name;
                assert(a[i] == name && text_less(a[i], a[a.len() - 1]));
                assert(a.contains(name));
                assert(b.contains(name));
                let i2 = choose|i: int| 0 <= i < b.len() && b[i] == name;
                assert(d[i2] == name);
            }
            if d.contains(name) {
                let i = choose|i: int| 0 <= i < d.len() && d[i] == name;
                assert(b[i] == name && text_less(b[i], b[b.len() - 1]));
                assert(b.contains(name));
                assert(a.contains(name));
                let i2 = choose|i: int| 0 <= i < a.len() && a[i] == name;
                assert(c[i2] == name);
            }
        }
        lemma_sorted_same(c, d);
        assert(a =~= c.push(x));
        assert(b =~= d.push(y));
    }
}

/// The totals of all exporters do not depend on the order of the buffers.
proof fn lemma_totals_any_order<T>(p: Seq<T>, q: Seq<T>, f: spec_fn(T) -> Usage)
    requires
        p.to_multiset() == q.to_multiset(),
    ensures
        exporter_totals(p.map_values(f)) == exporter_totals(q.map_values(f)),
{
    let u = p.map_values(f);
    let w = q.map_values(f);
    law_exporters_sorted_and_complete(u);
    law_exporters_sorted_and_complete(w);
    assert forall|name: Seq<char>| count_of(u, name) == count_of(w, name) && size_of(u, name)
        == size_of(w, name) && #[trigger] refs_of(u, name) == refs_of(w, name) by {
        lemma_any_order(p, q, f, name);
    }
    assert forall|name: Seq<char>|
        names_of(u).contains(name) <==> #[trigger] names_of(w).contains(name) by {
        assert(refs_of(u, name) == refs_of(w, name));
    }
    lemma_sorted_same(names_of(u), names_of(w));
    assert(exporter_totals(u) =~= exporter_totals(w)) by {
        assert forall|i: int| 0 <= i < exporter_totals(u).len() implies exporter_totals(u)[i]
            == #[trigger] exporter_totals(w)[i] by {
            assert(refs_of(u, names_of(u)[i]) == refs_of(w, names_of(u)[i]));
        }
    }
}

/// In whatever order the kernel lists its buffers, the exporters' totals are the same; and
/// their counts add up to the number of buffers.
pub proof fn law_listing_order_does_not_matter(p: Seq<DebugfsBufEntry>, q: Seq<DebugfsBufEntry>)
    requires
        p.to_multiset() == q.to_multiset(),
    ensures
        exporter_totals(debugfs_usage(p)) == exporter_totals(debugfs_usage(q)),
        sum_counts(debugfs_usage(p), names_of(debugfs_usage(p))) == p.len(),
{
    let f = |e: DebugfsBufEntry|
        Usage { name: e.exp_name@, size: e.size as nat, refs: e.count as int };
    assert(debugfs_usage(p) =~= p.map_values(f));
    assert(debugfs_usage(q) =~= q.map_values(f));
    lemma_totals_any_order(p, q, f);
    law_exporter_totals_add_up(debugfs_usage(p));
}

/// In whatever order buffers stand under sysfs, the exporters' totals are the same; and
/// their counts add up to the number of buffers.
pub proof fn law_directory_order_does_not_matter(p: Seq<DmaBufInfo>, q: Seq<DmaBufInfo>)
    requires
        p.to_multiset() == q.to_multiset(),
    ensures
        exporter_totals(sysfs_usage(p)) == exporter_totals(sysfs_usage(q)),
        sum_counts(sysfs_usage(p), names_of(sysfs_usage(p))) == p.len(),
{
    let f = |e: DmaBufInfo|
        Usage { name: e.exporter_name@, size: e.size as nat, refs: 0 };
    assert(sysfs_usage(p) =~= p.map_values(f));
    assert(sysfs_usage(q) =~= q.map_values(f));
    lemma_totals_any_order(p, q, f);
    law_exporter_totals_add_up(sysfs_usage(p));
}

/// The totals of exporters depend on the multiset of the buffers alone.
pub proof fn law_totals_any_order(u: Seq<Usage>, v: Seq<Usage>)
    requires
        u.to_multiset() == v.to_multiset(),
    ensures
        exporter_totals(u) == exporter_totals(v),
{
    let f = |x: Usage| x;
    assert(u.map_values(f) =~= u);
    assert(v.map_values(f) =~= v);
    lemma_totals_any_order(u, v, f);
}

/// One buffer of a process as its totals see it.
#[verifier::ext_equal]
pub ghost struct Holding {
    pub pid: nat,
    pub comm: Seq<char>,
    pub size: nat,
}

/// The buffers that processes hold.
pub open spec fn holdings(entries: Seq<ProcessBufEntry>) -> Seq<Holding> {
    Seq::new(
        entries.len(),
        |i: int|
            Holding {
                pid: entries[i].pid as nat,
                comm: entries[i].comm@,
                size: entries[i].size as nat,
            },
    )
}

/// The totals of one process: the name that its first buffer gives, how many
/// descriptors it holds and their size.
pub open spec fn process_total(h: Seq<Holding>, pid: nat) -> ProcessTotals
    decreases h.len(),
{
    if h.len() == 0 {
        ProcessTotals { pid, comm: Seq::empty(), fds: 0, size: 0 }
    } else {
        let t = process_total(h.drop_last(), pid);
        if h.last().pid == pid {
            ProcessTotals {
                comm: if t.fds == 0 {
                    h.last().comm
                } else {
                    t.comm
                },
                fds: t.fds + 1,
                size: t.size + h.last().size,
                ..t
            }
        } else {
            t
        }
    }
}

/// A sorted list of process numbers with one more in it.
pub open spec fn insert_pid(s: Seq<nat>, x: nat) -> Seq<nat>
    decreases s.len(),
{
    if s.len() == 0 {
        seq![x]
    } else if s[0] == x {
        s
    } else if x < s[0] {
        seq![x] + s
    } else {
        seq![s[0]] + insert_pid(s.skip(1), x)
    }
}

/// The processes, each once, in ascending order.
pub open spec fn pids_of(h: Seq<Holding>) -> Seq<nat>
    decreases h.len(),
{
    if h.len() == 0 {
        Seq::empty()
    } else {
        insert_pid(pids_of(h.drop_last()), h.last().pid)
    }
}

/// Totals by descending size with one more behind all that are no smaller.
pub open spec fn insert_by_size(s: Seq<ProcessTotals>, x: ProcessTotals) -> Seq<ProcessTotals>
    decreases s.len(),
{
    if s.len() == 0 {
        seq![x]
    } else if s[0].size < x.size {
        seq![x] + s
    } else {
        seq![s[0]] + insert_by_size(s.skip(1), x)
    }
}

/// The totals of the given processes by descending size; of equal sizes the one
/// that stands first in the list stays first.
pub open spec fn by_size(h: Seq<Holding>, pids: Seq<nat>) -> Seq<ProcessTotals>
    decreases pids.len(),
{
    if pids.len() == 0 {
        Seq::empty()
    } else {
        insert_by_size(by_size(h, pids.drop_last()), process_total(h, pids.last()))
    }
}

/// The totals of all processes, largest first, then by process number.
pub open spec fn process_totals(h: Seq<Holding>) -> Seq<ProcessTotals> {
    by_size(h, pids_of(h))
}

/// The contents of a sequence of summaries.
pub open spec fn process_summaries(v: Seq<ProcessSummary>) -> Seq<ProcessTotals> {
    Seq::new(v.len(), |i: int| v[i]@)
}

proof fn lemma_insert_pid(s: Seq<nat>, x: nat, i: int)
    requires
        0 <= i <= s.len(),
        forall|j: int| 0 <= j < i ==> #[trigger] s[j] < x,
        i < s.len() ==> s[i] >= x,
    ensures
        insert_pid(s, x) == if i < s.len() && s[i] == x {
            s
        } else {
            s.take(i) + seq![x] + s.skip(i)
        },
    decreases i,
{
    if i == 0 {
        assert(s.take(0) + seq![x] + s.skip(0) =~= seq![x] + s);
        if s.len() == 0 {
            assert(seq![x] + s =~= seq![x]);
        }
    } else {
        let t = s.skip(1);
        assert(s[0] < x);
        assert forall|j: int| 0 <= j < i - 1 implies #[trigger] t[j] < x by {
            assert(t[j] == s[j + 1]);
        }
        lemma_insert_pid(t, x, i - 1);
        if i < s.len() && s[i] == x {
            assert(seq![s[0]] + t =~= s);
        } else {
            assert(seq![s[0]] + (t.take(i - 1) + seq![x] + t.skip(i - 1)) =~= s.take(i) + seq![x]
                + s.skip(i));
        }
    }
}

proof fn lemma_insert_by_size(s: Seq<ProcessTotals>, x: ProcessTotals, i: int)
    requires
        0 <= i <= s.len(),
        forall|j: int| 0 <= j < i ==> (#[trigger] s[j]).size >= x.size,
        i < s.len() ==> s[i].size < x.size,
    ensures
        insert_by_size(s, x) == s.take(i) + seq![x] + s.skip(i),
    decreases i,
{
    if i == 0 {
        assert(s.take(0) + seq![x] + s.skip(0) =~= seq![x] + s);
        if s.len() == 0 {
            assert(seq![x] + s =~= seq![x]);
        }
    } else {
        let t = s.skip(1);
        assert(s[0].size >= x.size);
        assert forall|j: int| 0 <= j < i - 1 implies (#[trigger] t[j]).size >= x.size by {
            assert(t[j] == s[j + 1]);
        }
        lemma_insert_by_size(t, x, i - 1);
        assert(seq![s[0]] + (t.take(i - 1) + seq![x] + t.skip(i - 1)) =~= s.take(i) + seq![x]
            + s.skip(i));
    }
}

spec fn pid_list(v: Seq<u32>) -> Seq<nat> {
    Seq::new(v.len(), |i: int| v[i] as nat)
}

fn sorted_pids(entries: &[ProcessBufEntry]) -> (r: Vec<u32>)
    ensures
        pid_list(r@) == pids_of(holdings(entries@)),
{
    let ghost h = holdings(entries@);
    let mut r: Vec<u32> = Vec::new();
    let mut i: usize = 0;
    assert(pid_list(r@) =~= pids_of(h.take(0)));
    while i < entries.len()
        invariant
            i <= entries@.len(),
            h == holdings(entries@),
            pid_list(r@) == pids_of(h.take(i as int)),
        decreases entries@.len() - i,
    {
        let x: u32 = entries[i].pid;
        let ghost t = h.take(i + 1);
        assert(t.drop_last() =~= h.take(i as int));
        assert(t.last() == h[i as int]);
        let mut j: usize = 0;
        while j < r.len() && r[j] < x
            invariant
                j <= r@.len(),
                forall|k: int| 0 <= k < j ==> #[trigger] pid_list(r@)[k] < x,
            decreases r@.len() - j,
        {
            j = j + 1;
        }
        proof {
            lemma_insert_pid(pid_list(r@), x as nat, j as int);
        }
        let ghost before = r@;
        if j == r.len() || r[j] != x {
            r.insert(j, x);
            assert(pid_list(r@) =~= pid_list(before).take(j as int) + seq![x as nat] + pid_list(
                before,
            ).skip(j as int));
        }
        i = i + 1;
    }
    assert(h.take(h.len() as int) =~= h);
    r
}

/// The size of all buffers that processes hold.
pub open spec fn holding_size(h: Seq<Holding>) -> nat
    decreases h.len(),
{
    if h.len() == 0 {
        0
    } else {
        holding_size(h.drop_last()) + h.last().size
    }
}

/// Every running total of one process fits its machine integer.
pub open spec fn process_totals_fit(h: Seq<Holding>) -> bool {
    forall|n: int, pid: nat|
        0 <= n <= h.len() ==> (#[trigger] process_total(h.take(n), pid)).size <= u64::MAX
}

fn summary_of(entries: &[ProcessBufEntry], pid: u32) -> (r: ProcessSummary)
    requires
        process_totals_fit(holdings(entries@)),
    ensures
        r@ == process_total(holdings(entries@), pid as nat),
{
    let ghost h = holdings(entries@);
    let mut comm: String = String::new();
    let mut fds: usize = 0;
    let mut size: u64 = 0;
    let mut i: usize = 0;
    assert(comm@ =~= Seq::empty());
    while i < entries.len()
        invariant
            i <= entries@.len(),
            h == holdings(entries@),
            process_totals_fit(h),
            fds <= i,
            (ProcessTotals { pid: pid as nat, comm: comm@, fds: fds as nat, size: size as nat })
                == process_total(h.take(i as int), pid as nat),
        decreases entries@.len() - i,
    {
        let ghost t = h.take(i + 1);
        assert(t.drop_last() =~= h.take(i as int));
        assert(t.last() == h[i as int]);
        assert(process_total(t, pid as nat).size <= u64::MAX);
        let e: &ProcessBufEntry = &entries[i];
        if e.pid == pid {
            if fds == 0 {
                comm = e.comm.clone();
            }
            fds = fds + 1;
            size = size + e.size;
        }
        i = i + 1;
    }
    assert(h.take(h.len() as int) =~= h);
    ProcessSummary { pid, comm, fd_count: fds, total_size_bytes: size }
}

/// Totals by process, largest first.
pub fn aggregate_process_usage(entries: &[ProcessBufEntry]) -> (r: Vec<ProcessSummary>)
    requires
        process_totals_fit(holdings(entries@)),
    ensures
        process_summaries(r@) == process_totals(holdings(entries@)),
{
    let ghost h = holdings(entries@);
    let pids = sorted_pids(entries);
    let ghost ps = pid_list(pids@);
    let mut r: Vec<ProcessSummary> = Vec::new();
    let mut i: usize = 0;
    assert(process_summaries(r@) =~= by_size(h, ps.take(0)));
    while i < pids.len()
        invariant
            i <= pids@.len(),
            h == holdings(entries@),
            process_totals_fit(h),
            ps == pid_list(pids@),
            process_summaries(r@) == by_size(h, ps.take(i as int)),
        decreases pids@.len() - i,
    {
        let ghost t = ps.take(i + 1);
        assert(t.drop_last() =~= ps.take(i as int));
        assert(t.last() == pids@[i as int]);
        let x = summary_of(entries, pids[i]);
        let mut j: usize = 0;
        while j < r.len() && r[j].total_size_bytes >= x.total_size_bytes
            invariant
                j <= r@.len(),
                forall|k: int|
                    0 <= k < j ==> (#[trigger] process_summaries(r@)[k]).size >= x@.size,
            decreases r@.len() - j,
        {
            j = j + 1;
        }
        proof {
            lemma_insert_by_size(process_summaries(r@), x@, j as int);
        }
        let ghost before = r@;
        let ghost added = x@;
        r.insert(j, x);
        assert(process_summaries(r@) =~= process_summaries(before).take(j as int) + seq![added]
            + process_summaries(before).skip(j as int));
        i = i + 1;
    }
    assert(ps.take(ps.len() as int) =~= ps);
    r
}

/// Process numbers in strictly ascending order.
pub open spec fn pids_sorted(s: Seq<nat>) -> bool {
    forall|i: int, j: int| 0 <= i < j < s.len() ==> s[i] < s[j]
}

proof fn lemma_insert_pid_sorted(s: Seq<nat>, x: nat)
    requires
        pids_sorted(s),
    ensures
        pids_sorted(insert_pid(s, x)),
        forall|y: nat|
            #![trigger insert_pid(s, x).contains(y)]
            #![trigger s.contains(y)]
            insert_pid(s, x).contains(y) <==> s.contains(y) || y == x,
    decreases s.len(),
{
    let r = insert_pid(s, x);
    if s.len() == 0 {
        assert(r[0] == x);
    } else if s[0] == x {
        assert(s.contains(x));
    } else if x < s[0] {
        assert(r =~= seq![x] + s);
        assert(r[0] == x);
        assert forall|y: nat|
            #![trigger r.contains(y)]
            #![trigger s.contains(y)]
            r.contains(y) <==> s.contains(y) || y == x by {
            if s.contains(y) {
                let k = choose|k: int| 0 <= k < s.len() && s[k] == y;
                assert(r[k + 1] == y);
            }
            if r.contains(y) && y != x {
                let k = choose|k: int| 0 <= k < r.len() && r[k] == y;
                assert(s[k - 1] == y);
            }
        }
    } else {
        let t = s.skip(1);
        assert(pids_sorted(t));
        lemma_insert_pid_sorted(t, x);
        let q = insert_pid(t, x);
        assert(r =~= seq![s[0]] + q);
        assert forall|i: int, j: int| 0 <= i < j < r.len() implies r[i] < r[j] by {
            if i == 0 {
                assert(q[j - 1] == r[j]);
                assert(q.contains(r[j]));
                if r[j] != x {
                    let k = choose|k: int| 0 <= k < t.len() && t[k] == r[j];
                    assert(s[k + 1] == r[j]);
                }
            }
        }
        assert forall|y: nat|
            #![trigger r.contains(y)]
            #![trigger s.contains(y)]
            r.contains(y) <==> s.contains(y) || y == x by {
            if s.contains(y) || y == x {
                if s[0] == y {
                    assert(r[0] == y);
                } else {
                    if y != x {
                        let k = choose|k: int| 0 <= k < s.len() && s[k] == y;
                        assert(t[k - 1] == y);
                    }
                    assert(q.contains(y));
                    let m = choose|m: int| 0 <= m < q.len() && q[m] == y;
                    assert(r[m + 1] == y);
                }
            }
            if r.contains(y) {
                let k = choose|k: int| 0 <= k < r.len() && r[k] == y;
                if k > 0 {
                    assert(q[k - 1] == y);
                    assert(q.contains(y));
                    if y != x {
                        let m = choose|m: int| 0 <= m < t.len() && t[m] == y;
                        assert(s[m + 1] == y);
                    }
                } else {
                    assert(s[0] == y);
                }
            }
        }
    }
}

/// The processes stand in ascending order, each once; and those listed are just
/// those that hold a buffer.
pub proof fn law_processes_sorted_and_complete(h: Seq<Holding>)
    ensures
        pids_sorted(pids_of(h)),
        forall|pid: nat|
            #![trigger pids_of(h).contains(pid)]
            #![trigger process_total(h, pid)]
            pids_of(h).contains(pid) <==> process_total(h, pid).fds > 0,
    decreases h.len(),
{
    if h.len() > 0 {
        let w = h.drop_last();
        law_processes_sorted_and_complete(w);
        lemma_insert_pid_sorted(pids_of(w), h.last().pid);
    }
}

/// Whether totals stand in descending order of size, and by process number where
/// sizes are equal.
pub open spec fn totals_sorted(s: Seq<ProcessTotals>) -> bool {
    forall|i: int, j: int|
        0 <= i < j < s.len() ==> (#[trigger] s[i]).size > (#[trigger] s[j]).size || (s[i].size
            == s[j].size && s[i].pid < s[j].pid)
}

proof fn lemma_insert_by_size_sorted(s: Seq<ProcessTotals>, x: ProcessTotals)
    requires
        totals_sorted(s),
        forall|i: int| 0 <= i < s.len() ==> (#[trigger] s[i]).pid < x.pid,
    ensures
        totals_sorted(insert_by_size(s, x)),
        insert_by_size(s, x).len() == s.len() + 1,
        forall|y: ProcessTotals|
            #![trigger insert_by_size(s, x).contains(y)]
            #![trigger s.contains(y)]
            insert_by_size(s, x).contains(y) <==> s.contains(y) || y == x,
    decreases s.len(),
{
    let r = insert_by_size(s, x);
    if s.len() == 0 {
        assert(r[0] == x);
    } else if s[0].size < x.size {
        assert(r =~= seq![x] + s);
        assert(r[0] == x);
        assert forall|y: ProcessTotals|
            #![trigger r.contains(y)]
            #![trigger s.contains(y)]
            r.contains(y) <==> s.contains(y) || y == x by {
            if s.contains(y) {
                let k = choose|k: int| 0 <= k < s.len() && s[k] == y;
                assert(r[k + 1] == y);
            }
            if r.contains(y) && y != x {
                let k = choose|k: int| 0 <= k < r.len() && r[k] == y;
                assert(s[k - 1] == y);
            }
        }
    } else {
        let t = s.skip(1);
        assert(totals_sorted(t));
        assert forall|i: int| 0 <= i < t.len() implies (#[trigger] t[i]).pid < x.pid by {
            assert(t[i] == s[i + 1]);
        }
        lemma_insert_by_size_sorted(t, x);
        let q = insert_by_size(t, x);
        assert(r =~= seq![s[0]] + q);
        assert forall|i: int, j: int| 0 <= i < j < r.len() implies (#[trigger] r[i]).size > (
        #[trigger] r[j]).size || (r[i].size == r[j].size && r[i].pid < r[j].pid) by {
            assert(q[j - 1] == r[j]);
            if i == 0 {
                assert(q.contains(r[j]));
                if r[j] != x {
                    let k = choose|k: int| 0 <= k < t.len() && t[k] == r[j];
                    assert(s[k + 1] == r[j]);
                }
            } else {
                assert(q[i - 1] == r[i]);
            }
        }
        assert forall|y: ProcessTotals|
            #![trigger r.contains(y)]
            #![trigger s.contains(y)]
            r.contains(y) <==> s.contains(y) || y == x by {
            if s.contains(y) || y == x {
                if s[0] == y {
                    assert(r[0] == y);
                } else {
                    if y != x {
                        let k = choose|k: int| 0 <= k < s.len() && s[k] == y;
                        assert(t[k - 1] == y);
                    }
                    assert(q.contains(y));
                    let m = choose|m: int| 0 <= m < q.len() && q[m] == y;
                    assert(r[m + 1] == y);
                }
            }
            if r.contains(y) {
                let k = choose|k: int| 0 <= k < r.len() && r[k] == y;
                if k > 0 {
                    assert(q[k - 1] == y);
                    assert(q.contains(y));
                    if y != x {
                        let m = choose|m: int| 0 <= m < t.len() && t[m] == y;
                        assert(s[m + 1] == y);
                    }
                } else {
                    assert(s[0] == y);
                }
            }
        }
    }
}

proof fn lemma_process_total_pid(h: Seq<Holding>, pid: nat)
    ensures
        process_total(h, pid).pid == pid,
    decreases h.len(),
{
    if h.len() > 0 {
        lemma_process_total_pid(h.drop_last(), pid);
    }
}

proof fn lemma_by_size(h: Seq<Holding>, pids: Seq<nat>)
    requires
        pids_sorted(pids),
    ensures
        totals_sorted(by_size(h, pids)),
        by_size(h, pids).len() == pids.len(),
        forall|y: ProcessTotals|
            #![trigger by_size(h, pids).contains(y)]
            by_size(h, pids).contains(y) <==> pids.contains(y.pid) && y == process_total(h, y.pid),
    decreases pids.len(),
{
    if pids.len() > 0 {
        let q = pids.drop_last();
        let p = pids.last();
        assert(pids_sorted(q));
        lemma_by_size(h, q);
        let s = by_size(h, q);
        lemma_process_total_pid(h, p);
        assert forall|i: int| 0 <= i < s.len() implies (#[trigger] s[i]).pid < p by {
            assert(s.contains(s[i]));
            let k = choose|k: int| 0 <= k < q.len() && q[k] == s[i].pid;
            assert(pids[k] < pids[pids.len() - 1]);
        }
        lemma_insert_by_size_sorted(s, process_total(h, p));
        assert forall|y: ProcessTotals|
            #![trigger by_size(h, pids).contains(y)]
            by_size(h, pids).contains(y) <==> pids.contains(y.pid) && y == process_total(
                h,
                y.pid,
            ) by {
            assert(pids.contains(y.pid) <==> q.contains(y.pid) || y.pid == p) by {
                if pids.contains(y.pid) {
                    let k = choose|k: int| 0 <= k < pids.len() && pids[k] == y.pid;
                    if k < q.len() {
                        assert(q[k] == y.pid);
                    }
                }
                if q.contains(y.pid) {
                    let k = choose|k: int| 0 <= k < q.len() && q[k] == y.pid;
                    assert(pids[k] == y.pid);
                }
                assert(pids[pids.len() - 1] == p);
            }
        }
    }
}

/// Per-process totals come largest first, equal sizes by process number, and hold
/// the totals of just those processes that hold a buffer.
pub proof fn law_process_totals_ordered(h: Seq<Holding>)
    ensures
        totals_sorted(process_totals(h)),
        forall|y: ProcessTotals|
            #![trigger process_totals(h).contains(y)]
            process_totals(h).contains(y) <==> y.fds > 0 && y == process_total(h, y.pid),
{
    law_processes_sorted_and_complete(h);
    lemma_by_size(h, pids_of(h));
}

/// The entries whose exporter is among the given heaps, in order.
pub open spec fn kept_buffers(s: Seq<DebugfsBufEntry>, heaps: Seq<Seq<char>>) -> Seq<
    DebugfsBufEntry,
> {
    s.filter(|e: DebugfsBufEntry| heaps.contains(e.exp_name@))
}

/// The held buffers whose exporter is among the given heaps, in order.
pub open spec fn kept_holdings(s: Seq<ProcessBufEntry>, heaps: Seq<Seq<char>>) -> Seq<
    ProcessBufEntry,
> {
    s.filter(|e: ProcessBufEntry| heaps.contains(e.exp_name@))
}

fn names_heap(heaps: &[String], name: &str) -> (r: bool)
    ensures
        r == crate::info::types::strings(heaps@).contains(name@),
{
    let ghost all = crate::info::types::strings(heaps@);
    let mut i: usize = 0;
    while i < heaps.len()
        invariant
            i <= heaps@.len(),
            all == crate::info::types::strings(heaps@),
            forall|k: int| 0 <= k < i ==> all[k] != name@,
        decreases heaps@.len() - i,
    {
        if same_string(heaps[i].as_str(), name) {
            assert(all[i as int] == name@);
            return true;
        }
        i = i + 1;
    }
    false
}

/// Keeps the buffers of the given heaps.
pub fn filter_buffers(entries: Vec<DebugfsBufEntry>, heaps: &[String]) -> (r: Vec<DebugfsBufEntry>)
    ensures
        r@ == kept_buffers(entries@, crate::info::types::strings(heaps@)),
{
    let ghost hs = crate::info::types::strings(heaps@);
    let ghost all = entries@;
    let ghost keep = |e: DebugfsBufEntry| hs.contains(e.exp_name@);
    let mut r: Vec<DebugfsBufEntry> = Vec::new();
    let mut rest = entries;
    while rest.len() > 0
        invariant
            rest@.len() <= all.len(),
            rest@ == all.skip(all.len() - rest@.len()),
            hs == crate::info::types::strings(heaps@),
            keep == (|e: DebugfsBufEntry| hs.contains(e.exp_name@)),
            r@ == all.take(all.len() - rest@.len()).filter(keep),
        decreases rest@.len(),
    {
        let ghost n = all.len() - rest@.len();
        let e = rest.remove(0);
        proof {
            assert(all[n] == e);
            assert(all.take(n + 1) =~= all.take(n).push(e));
            assert(all.take(n).push(e).filter(keep) == if keep(e) {
                all.take(n).filter(keep).push(e)
            } else {
                all.take(n).filter(keep)
            }) by {
                assert(all.take(n).push(e).drop_last() =~= all.take(n));
                reveal(Seq::filter);
            }
        }
        if names_heap(heaps, e.exp_name.as_str()) {
            r.push(e);
        }
        assert(rest@ =~= all.skip(n + 1));
    }
    assert(all.take(all.len() as int) =~= all);
    r
}

/// Keeps the held buffers of the given heaps.
pub fn filter_holdings(entries: Vec<ProcessBufEntry>, heaps: &[String]) -> (r: Vec<
    ProcessBufEntry,
>)
    ensures
        r@ == kept_holdings(entries@, crate::info::types::strings(heaps@)),
{
    let ghost hs = crate::info::types::strings(heaps@);
    let ghost all = entries@;
    let ghost keep = |e: ProcessBufEntry| hs.contains(e.exp_name@);
    let mut r: Vec<ProcessBufEntry> = Vec::new();
    let mut rest = entries;
    while rest.len() > 0
        invariant
            rest@.len() <= all.len(),
            rest@ == all.skip(all.len() - rest@.len()),
            hs == crate::info::types::strings(heaps@),
            keep == (|e: ProcessBufEntry| hs.contains(e.exp_name@)),
            r@ == all.take(all.len() - rest@.len()).filter(keep),
        decreases rest@.len(),
    {
        let ghost n = all.len() - rest@.len();
        let e = rest.remove(0);
        proof {
            assert(all[n] == e);
            assert(all.take(n + 1) =~= all.take(n).push(e));
            assert(all.take(n).push(e).filter(keep) == if keep(e) {
                all.take(n).filter(keep).push(e)
            } else {
                all.take(n).filter(keep)
            }) by {
                assert(all.take(n).push(e).drop_last() =~= all.take(n));
                reveal(Seq::filter);
            }
        }
        if names_heap(heaps, e.exp_name.as_str()) {
            r.push(e);
        }
        assert(rest@ =~= all.skip(n + 1));
    }
    assert(all.take(all.len() as int) =~= all);
    r
}

/// The descriptors of the given totals, summed.
pub open spec fn sum_fds(s: Seq<ProcessTotals>) -> nat
    decreases s.len(),
{
    if s.len() == 0 {
        0
    } else {
        sum_fds(s.skip(1)) + s[0].fds
    }
}

/// The sizes of the given totals, summed.
pub open spec fn sum_held(s: Seq<ProcessTotals>) -> nat
    decreases s.len(),
{
    if s.len() == 0 {
        0
    } else {
        sum_held(s.skip(1)) + s[0].size
    }
}

proof fn lemma_insert_sums(s: Seq<ProcessTotals>, x: ProcessTotals)
    ensures
        sum_fds(insert_by_size(s, x)) == sum_fds(s) + x.fds,
        sum_held(insert_by_size(s, x)) == sum_held(s) + x.size,
    decreases s.len(),
{
    let r = insert_by_size(s, x);
    if s.len() == 0 {
        assert(r.skip(1) =~= s);
    } else if s[0].size < x.size {
        assert(r.skip(1) =~= s);
    } else {
        lemma_insert_sums(s.skip(1), x);
        assert(r.skip(1) =~= insert_by_size(s.skip(1), x));
    }
}

proof fn lemma_no_holdings(h: Seq<Holding>, pids: Seq<nat>)
    requires
        h.len() == 0,
    ensures
        sum_fds(by_size(h, pids)) == 0,
        sum_held(by_size(h, pids)) == 0,
    decreases pids.len(),
{
    if pids.len() > 0 {
        lemma_no_holdings(h, pids.drop_last());
        lemma_insert_sums(by_size(h, pids.drop_last()), process_total(h, pids.last()));
    }
}

proof fn lemma_holding_step(h: Seq<Holding>, pids: Seq<nat>)
    requires
        h.len() > 0,
        pids_sorted(pids),
    ensures
        sum_fds(by_size(h, pids)) == sum_fds(by_size(h.drop_last(), pids)) + if pids.contains(
            h.last().pid,
        ) {
            1nat
        } else {
            0nat
        },
        sum_held(by_size(h, pids)) == sum_held(by_size(h.drop_last(), pids)) + if pids.contains(
            h.last().pid,
        ) {
            h.last().size
        } else {
            0
        },
    decreases pids.len(),
{
    if pids.len() > 0 {
        let q = pids.drop_last();
        assert(pids_sorted(q));
        lemma_holding_step(h, q);
        let x = h.last().pid;
        lemma_insert_sums(by_size(h, q), process_total(h, pids.last()));
        lemma_insert_sums(by_size(h.drop_last(), q), process_total(h.drop_last(), pids.last()));
        if pids.last() == x {
            assert(pids[pids.len() - 1] == x);
            assert(!q.contains(x)) by {
                if q.contains(x) {
                    let k = choose|k: int| 0 <= k < q.len() && q[k] == x;
                    assert(pids[k] < pids[pids.len() - 1]);
                }
            }
        } else {
            if pids.contains(x) {
                let k = choose|k: int| 0 <= k < pids.len() && pids[k] == x;
                assert(q[k] == x);
            }
            if q.contains(x) {
                let k = choose|k: int| 0 <= k < q.len() && q[k] == x;
                assert(pids[k] == x);
            }
        }
    }
}

proof fn lemma_holding_sums(h: Seq<Holding>, pids: Seq<nat>)
    requires
        pids_sorted(pids),
        forall|pid: nat| (#[trigger] process_total(h, pid)).fds > 0 ==> pids.contains(pid),
    ensures
        sum_fds(by_size(h, pids)) == h.len(),
        sum_held(by_size(h, pids)) == holding_size(h),
    decreases h.len(),
{
    if h.len() > 0 {
        let w = h.drop_last();
        assert forall|pid: nat| (#[trigger] process_total(w, pid)).fds > 0 implies pids.contains(
            pid,
        ) by {
            assert(process_total(h, pid).fds > 0);
        }
        lemma_holding_sums(w, pids);
        lemma_holding_step(h, pids);
        assert(process_total(h, h.last().pid).fds > 0);
    } else {
        lemma_no_holdings(h, pids);
    }
}

/// No held buffer is lost or counted twice: the processes' descriptors add up to
/// the number of entries, and their sizes to the size of all entries.
pub proof fn law_process_totals_add_up(h: Seq<Holding>)
    ensures
        sum_fds(process_totals(h)) == h.len(),
        sum_held(process_totals(h)) == holding_size(h),
{
    law_processes_sorted_and_complete(h);
    lemma_holding_sums(h, pids_of(h));
}

/// Where all held buffers together fit, so do the totals of each process.
pub proof fn lemma_process_totals_fit(h: Seq<Holding>)
    requires
        holding_size(h) <= u64::MAX,
    ensures
        process_totals_fit(h),
{
    assert forall|n: int, pid: nat| 0 <= n <= h.len() implies (#[trigger] process_total(
        h.take(n),
        pid,
    )).size <= u64::MAX by {
        lemma_process_below(h.take(n), pid);
        lemma_holding_grows(h, n);
    }
}

proof fn lemma_process_below(h: Seq<Holding>, pid: nat)
    ensures
        process_total(h, pid).size <= holding_size(h),
    decreases h.len(),
{
    if h.len() > 0 {
        lemma_process_below(h.drop_last(), pid);
    }
}

/// A part of the held buffers is no larger than all of them.
pub proof fn lemma_holding_grows(h: Seq<Holding>, n: int)
    requires
        0 <= n <= h.len(),
    ensures
        holding_size(h.take(n)) <= holding_size(h),
    decreases h.len() - n,
{
    if n < h.len() {
        lemma_holding_grows(h, n + 1);
        assert(h.take(n + 1).drop_last() =~= h.take(n));
    } else {
        assert(h.take(n) =~= h);
    }
}

} // verus!
