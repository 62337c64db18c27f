//! Report aggregation: folding raw time entries into labelled groups,
//! resolving ticket time onto cost centers, ranking groups with an "Other"
//! overflow bucket, and the presentation helpers.

use crate::digits::{int_parse, pad2_digits, pad2_string, parse_i64_or_zero};
use crate::records::{nice_name, CostCenter, TimeWorked};
use vstd::pervasive::VecAdditionalExecFns;
use vstd::prelude::*;
use vstd::string::StrSliceExecFns;

verus! {

/// The mathematical shadow of one report group: a label and its seconds.
pub struct Grp {
    pub label: Seq<char>,
    pub seconds: int,
}

/// One aggregated group as the caller sees it.
#[derive(Debug, Clone, PartialEq, Eq)]
pub struct ReportGroup {
    pub label: String,
    pub seconds: i64,
}

impl ReportGroup {
    pub open spec fn model(self) -> Grp {
        Grp { label: self.label@, seconds: self.seconds as int }
    }
}

/// The group list as a sequence of mathematical groups.
pub open spec fn models(s: Seq<ReportGroup>) -> Seq<Grp> {
    s.map_values(|g: ReportGroup| g.model())
}

/// Seconds of one raw entry: its decimal text, or zero where that text is
/// not a well-formed `i64`.
pub open spec fn entry_seconds(t: TimeWorked) -> int {
    match int_parse(t.time_in_seconds@, i64::MIN as int, i64::MAX as int) {
        Ok(v) => v,
        Err(_) => 0,
    }
}

/// Grand total of a raw entry list, before any resolution.
pub open spec fn sum_seconds(s: Seq<TimeWorked>) -> int
    decreases s.len(),
{
    if s.len() == 0 {
        0
    } else {
        sum_seconds(s.drop_last()) + entry_seconds(s.last())
    }
}

/// Every entry's seconds are non-negative.
pub open spec fn nonneg_entries(s: Seq<TimeWorked>) -> bool {
    forall|i: int| 0 <= i < s.len() ==> entry_seconds(#[trigger] s[i]) >= 0
}

/// Index of the first group bearing `label`, or -1.
pub open spec fn grp_index(s: Seq<Grp>, label: Seq<char>) -> int
    decreases s.len(),
{
    if s.len() == 0 {
        -1
    } else if s[0].label == label {
        0
    } else {
        let r = grp_index(s.drop_first(), label);
        if r < 0 {
            -1
        } else {
            r + 1
        }
    }
}

/// Add `secs` under `label`: onto the first group bearing the label, or as
/// a fresh group at the end.
pub open spec fn bump(s: Seq<Grp>, label: Seq<char>, secs: int) -> Seq<Grp> {
    let i = grp_index(s, label);
    if i >= 0 {
        s.update(i, Grp { label: s[i].label, seconds: s[i].seconds + secs })
    } else {
        s.push(Grp { label, seconds: secs })
    }
}

/// Seconds recorded under `label`, zero where no group bears it.
pub open spec fn lookup_or_zero(s: Seq<Grp>, label: Seq<char>) -> int {
    let i = grp_index(s, label);
    if i >= 0 {
        s[i].seconds
    } else {
        0
    }
}

pub open spec fn sum_grps(s: Seq<Grp>) -> int
    decreases s.len(),
{
    if s.len() == 0 {
        0
    } else {
        sum_grps(s.drop_last()) + s.last().seconds
    }
}

pub open spec fn nonneg_grps(s: Seq<Grp>) -> bool {
    forall|i: int| 0 <= i < s.len() ==> (#[trigger] s[i]).seconds >= 0
}

pub open spec fn unique_labels(s: Seq<Grp>) -> bool {
    forall|i: int, j: int| 0 <= i < j < s.len() ==> s[i].label != s[j].label
}

pub proof fn lemma_grp_index_props(s: Seq<Grp>, label: Seq<char>)
    ensures
        -1 <= grp_index(s, label) < s.len(),
        grp_index(s, label) >= 0 ==> s[grp_index(s, label)].label == label,
        grp_index(s, label) >= 0 ==> forall|j: int|
            0 <= j < grp_index(s, label) ==> (#[trigger] s[j]).label != label,
        grp_index(s, label) == -1 ==> forall|j: int|
            0 <= j < s.len() ==> (#[trigger] s[j]).label != label,
    decreases s.len(),
{
    if s.len() > 0 && s[0].label != label {
        lemma_grp_index_props(s.drop_first(), label);
        let rest = s.drop_first();
        let r = grp_index(s, label);
        if r == -1 {
            assert forall|j: int| 0 <= j < s.len() implies (#[trigger] s[j]).label != label by {
                if j > 0 {
                    assert(s[j] == rest[j - 1]);
                }
            }
        } else {
            assert forall|j: int| 0 <= j < r implies (#[trigger] s[j]).label != label by {
                if j > 0 {
                    assert(s[j] == rest[j - 1]);
                }
            }
        }
    }
}

/// A scan that saw distinct labels up to `k` (and a match at `k`, or the
/// end) pins down `grp_index`.
pub proof fn lemma_grp_index_at(s: Seq<Grp>, label: Seq<char>, k: int)
    requires
        0 <= k <= s.len(),
        forall|j: int| 0 <= j < k ==> (#[trigger] s[j]).label != label,
        k == s.len() || s[k].label == label,
    ensures
        grp_index(s, label) == if k == s.len() {
            -1int
        } else {
            k
        },
    decreases s.len(),
{
    if s.len() > 0 && k > 0 {
        lemma_grp_index_at(s.drop_first(), label, k - 1);
    }
}

pub proof fn lemma_sum_grps_push(s: Seq<Grp>, g: Grp)
    ensures
        sum_grps(s.push(g)) == sum_grps(s) + g.seconds,
{
    assert(s.push(g).drop_last() =~= s);
}

pub proof fn lemma_sum_grps_update(s: Seq<Grp>, i: int, g: Grp)
    requires
        0 <= i < s.len(),
    ensures
        sum_grps(s.update(i, g)) == sum_grps(s) - s[i].seconds + g.seconds,
    decreases s.len(),
{
    if i == s.len() - 1 {
        assert(s.update(i, g).drop_last() =~= s.drop_last());
        assert(s.update(i, g).last() == g);
    } else {
        lemma_sum_grps_update(s.drop_last(), i, g);
        assert(s.update(i, g).drop_last() =~= s.drop_last().update(i, g));
        assert(s.update(i, g).last() == s.last());
    }
}

pub proof fn lemma_bump_sum(s: Seq<Grp>, label: Seq<char>, secs: int)
    ensures
        sum_grps(bump(s, label, secs)) == sum_grps(s) + secs,
{
    lemma_grp_index_props(s, label);
    let i = grp_index(s, label);
    if i >= 0 {
        lemma_sum_grps_update(s, i, Grp { label: s[i].label, seconds: s[i].seconds + secs });
    } else {
        lemma_sum_grps_push(s, Grp { label, seconds: secs });
    }
}

pub proof fn lemma_bump_nonneg(s: Seq<Grp>, label: Seq<char>, secs: int)
    requires
        nonneg_grps(s),
        secs >= 0,
    ensures
        nonneg_grps(bump(s, label, secs)),
{
    lemma_grp_index_props(s, label);
}

pub proof fn lemma_bump_unique(s: Seq<Grp>, label: Seq<char>, secs: int)
    requires
        unique_labels(s),
    ensures
        unique_labels(bump(s, label, secs)),
{
    lemma_grp_index_props(s, label);
}

/// With all groups non-negative, no single group exceeds the sum.
pub proof fn lemma_elem_le_sum(s: Seq<Grp>, i: int)
    requires
        nonneg_grps(s),
        0 <= i < s.len(),
    ensures
        s[i].seconds <= sum_grps(s),
    decreases s.len(),
{
    assert(nonneg_grps(s.drop_last()));
    if i == s.len() - 1 {
        lemma_sum_grps_nonneg(s.drop_last());
    } else {
        lemma_elem_le_sum(s.drop_last(), i);
    }
}

pub proof fn lemma_sum_grps_nonneg(s: Seq<Grp>)
    requires
        nonneg_grps(s),
    ensures
        sum_grps(s) >= 0,
    decreases s.len(),
{
    if s.len() > 0 {
        assert(nonneg_grps(s.drop_last()));
        lemma_sum_grps_nonneg(s.drop_last());
    }
}

/// Find the first group bearing `label`.
fn find_group(groups: &Vec<ReportGroup>, label: &str) -> (r: Option<usize>)
    ensures
        match r {
            Some(i) => i < groups@.len() && grp_index(models(groups@), label@) == i,
            None => grp_index(models(groups@), label@) == -1,
        },
{
    let ghost m = models(groups@);
    let mut i: usize = 0;
    let n = groups.len();
    while i < n
        invariant
            i <= n,
            n == groups@.len(),
            m == models(groups@),
            m.len() == n,
            forall|j: int| 0 <= j < i ==> (#[trigger] m[j]).label != label@,
        decreases n - i,
    {
        if crate::text::str_eq(groups[i].label.as_str(), label) {
            proof {
                assert(m[i as int].label == label@);
                lemma_grp_index_at(m, label@, i as int);
            }
            return Some(i);
        }
        proof {
            assert(m[i as int].label != label@);
        }
        i = i + 1;
    }
    proof {
        lemma_grp_index_at(m, label@, n as int);
    }
    None
}

/// Fold `secs` into the group bearing `label`, creating it if absent — the
/// map-entry accumulation step.
fn add_seconds(groups: &mut Vec<ReportGroup>, label: &str, secs: i64)
    requires
        secs >= 0,
        nonneg_grps(models(old(groups)@)),
        sum_grps(models(old(groups)@)) + secs <= i64::MAX,
    ensures
        models(final(groups)@) == bump(models(old(groups)@), label@, secs as int),
        nonneg_grps(models(final(groups)@)),
        sum_grps(models(final(groups)@)) == sum_grps(models(old(groups)@)) + secs,
{
    let ghost m0 = models(old(groups)@);
    proof {
        lemma_bump_sum(m0, label@, secs as int);
        lemma_bump_nonneg(m0, label@, secs as int);
    }
    match find_group(groups, label) {
        Some(i) => {
            proof {
                lemma_grp_index_props(m0, label@);
                lemma_elem_le_sum(m0, i as int);
                lemma_sum_grps_nonneg(m0);
            }
            let cur = groups[i].seconds;
            groups.set(i, ReportGroup { label: label.to_owned(), seconds: cur + secs });
            proof {
                assert(models(groups@) =~= bump(m0, label@, secs as int));
            }
        },
        None => {
            groups.push(ReportGroup { label: label.to_owned(), seconds: secs });
            proof {
                assert(models(groups@) =~= bump(m0, label@, secs as int));
            }
        },
    }
}

/// The first aggregation pass over the raw entries: category-labelled time
/// under its display name, ticket-attached time under the raw ticket id.
pub open spec fn accumulate_spec(entries: Seq<TimeWorked>) -> (Seq<Grp>, Seq<Grp>)
    decreases entries.len(),
{
    if entries.len() == 0 {
        (Seq::empty(), Seq::empty())
    } else {
        let p = accumulate_spec(entries.drop_last());
        let e = entries.last();
        if e.task@.len() == 0 {
            (bump(p.0, nice_name(e.category@), entry_seconds(e)), p.1)
        } else {
            (p.0, bump(p.1, e.task@, entry_seconds(e)))
        }
    }
}

pub proof fn lemma_accumulate_sums(entries: Seq<TimeWorked>)
    ensures
        sum_grps(accumulate_spec(entries).0) + sum_grps(accumulate_spec(entries).1) == sum_seconds(
            entries,
        ),
    decreases entries.len(),
{
    if entries.len() > 0 {
        lemma_accumulate_sums(entries.drop_last());
        let p = accumulate_spec(entries.drop_last());
        let e = entries.last();
        if e.task@.len() == 0 {
            lemma_bump_sum(p.0, nice_name(e.category@), entry_seconds(e));
        } else {
            lemma_bump_sum(p.1, e.task@, entry_seconds(e));
        }
    }
}

pub proof fn lemma_accumulate_wf(entries: Seq<TimeWorked>)
    requires
        nonneg_entries(entries),
    ensures
        nonneg_grps(accumulate_spec(entries).0),
        nonneg_grps(accumulate_spec(entries).1),
        unique_labels(accumulate_spec(entries).0),
        unique_labels(accumulate_spec(entries).1),
    decreases entries.len(),
{
    if entries.len() > 0 {
        assert(nonneg_entries(entries.drop_last()));
        lemma_accumulate_wf(entries.drop_last());
        let p = accumulate_spec(entries.drop_last());
        let e = entries.last();
        assert(entry_seconds(e) >= 0);
        if e.task@.len() == 0 {
            lemma_bump_nonneg(p.0, nice_name(e.category@), entry_seconds(e));
            lemma_bump_unique(p.0, nice_name(e.category@), entry_seconds(e));
        } else {
            lemma_bump_nonneg(p.1, e.task@, entry_seconds(e));
            lemma_bump_unique(p.1, e.task@, entry_seconds(e));
        }
    }
}

/// Partition the raw entries into the category pool and the ticket pool.
pub fn accumulate_time(entries: &Vec<TimeWorked>) -> (r: (Vec<ReportGroup>, Vec<ReportGroup>))
    requires
        nonneg_entries(entries@),
        sum_seconds(entries@) <= i64::MAX,
    ensures
        models(r.0@) == accumulate_spec(entries@).0,
        models(r.1@) == accumulate_spec(entries@).1,
{
    let mut cat: Vec<ReportGroup> = Vec::new();
    let mut tkt: Vec<ReportGroup> = Vec::new();
    let n = entries.len();
    proof {
        assert(entries@.take(0) =~= Seq::<TimeWorked>::empty());
        assert(models(cat@) =~= Seq::<Grp>::empty());
        assert(models(tkt@) =~= Seq::<Grp>::empty());
        lemma_sum_seconds_nonneg(entries@);
    }
    let mut i: usize = 0;
    while i < n
        invariant
            i <= n,
            n == entries@.len(),
            nonneg_entries(entries@),
            sum_seconds(entries@) <= i64::MAX,
            models(cat@) == accumulate_spec(entries@.take(i as int)).0,
            models(tkt@) == accumulate_spec(entries@.take(i as int)).1,
            nonneg_grps(models(cat@)),
            nonneg_grps(models(tkt@)),
            sum_grps(models(cat@)) + sum_grps(models(tkt@)) == sum_seconds(entries@.take(i as int)),
            sum_seconds(entries@.take(i as int)) <= sum_seconds(entries@),
        decreases n - i,
    {
        let ghost prefix = entries@.take(i as int);
        proof {
            assert(entries@.take(i + 1).drop_last() =~= prefix);
            assert(entries@.take(i + 1).last() == entries@[i as int]);
            lemma_sum_seconds_rest(entries@, i as int);
            lemma_sum_grps_nonneg(models(cat@));
            lemma_sum_grps_nonneg(models(tkt@));
        }
        let secs = parse_i64_or_zero(entries[i].time_in_seconds.as_str());
        if entries[i].task.as_str().is_empty() {
            let label = entries[i].get_nice_name_category();
            add_seconds(&mut cat, label.as_str(), secs);
        } else {
            add_seconds(&mut tkt, entries[i].task.as_str(), secs);
        }
        i = i + 1;
    }
    proof {
        assert(entries@.take(n as int) =~= entries@);
    }
    (cat, tkt)
}

pub proof fn lemma_sum_seconds_nonneg(s: Seq<TimeWorked>)
    requires
        nonneg_entries(s),
    ensures
        sum_seconds(s) >= 0,
    decreases s.len(),
{
    if s.len() > 0 {
        assert(nonneg_entries(s.drop_last()));
        lemma_sum_seconds_nonneg(s.drop_last());
    }
}

/// Grand total of the raw entries, computed before any resolution: failed
/// cost-center lookups never diminish it.
pub fn get_total(tasks: &Vec<TimeWorked>) -> (r: i64)
    requires
        nonneg_entries(tasks@),
        sum_seconds(tasks@) <= i64::MAX,
    ensures
        r as int == sum_seconds(tasks@),
{
    let mut acc: i64 = 0;
    let n = tasks.len();
    proof {
        assert(tasks@.take(0) =~= Seq::<TimeWorked>::empty());
        lemma_sum_seconds_nonneg(tasks@);
    }
    let mut i: usize = 0;
    while i < n
        invariant
            i <= n,
            n == tasks@.len(),
            nonneg_entries(tasks@),
            sum_seconds(tasks@) <= i64::MAX,
            acc as int == sum_seconds(tasks@.take(i as int)),
            acc as int <= sum_seconds(tasks@),
        decreases n - i,
    {
        proof {
            lemma_sum_seconds_rest(tasks@, i as int);
        }
        let secs = parse_i64_or_zero(tasks[i].time_in_seconds.as_str());
        acc = acc + secs;
        i = i + 1;
    }
    proof {
        assert(tasks@.take(n as int) =~= tasks@);
    }
    acc
}

/// No two cost-center rows bill the same task — the batched lookup answers
/// each distinct ticket id once.
pub open spec fn distinct_tasks(ccs: Seq<CostCenter>) -> bool {
    forall|i: int, j: int| 0 <= i < j < ccs.len() ==> ccs[i].task.value@ != ccs[j].task.value@
}

/// The second aggregation pass: each cost-center row folds the seconds of
/// the task it bills (zero where that task gathered none) into the group
/// bearing the center's display name. Ticket time whose id no row resolves
/// reaches no group.
pub open spec fn fold_cost_centers(cat: Seq<Grp>, tickets: Seq<Grp>, ccs: Seq<CostCenter>) -> Seq<
    Grp,
>
    decreases ccs.len(),
{
    if ccs.len() == 0 {
        cat
    } else {
        let prev = fold_cost_centers(cat, tickets, ccs.drop_last());
        let cc = ccs.last();
        bump(prev, cc.cost_center.display_value@, lookup_or_zero(tickets, cc.task.value@))
    }
}

/// Total seconds the cost-center rows pull out of the ticket pool.
pub open spec fn sum_lookups(tickets: Seq<Grp>, ccs: Seq<CostCenter>) -> int
    decreases ccs.len(),
{
    if ccs.len() == 0 {
        0
    } else {
        sum_lookups(tickets, ccs.drop_last()) + lookup_or_zero(
            tickets,
            ccs.last().task.value@,
        )
    }
}

pub proof fn lemma_lookup_nonneg(s: Seq<Grp>, label: Seq<char>)
    requires
        nonneg_grps(s),
    ensures
        lookup_or_zero(s, label) >= 0,
{
    lemma_grp_index_props(s, label);
}

/// The ticket pool with the first group bearing `label` taken out.
pub open spec fn remove_label(s: Seq<Grp>, label: Seq<char>) -> Seq<Grp> {
    let i = grp_index(s, label);
    if i >= 0 {
        s.remove(i)
    } else {
        s
    }
}

pub proof fn lemma_sum_grps_remove(s: Seq<Grp>, i: int)
    requires
        0 <= i < s.len(),
    ensures
        sum_grps(s.remove(i)) == sum_grps(s) - s[i].seconds,
    decreases s.len(),
{
    if i == s.len() - 1 {
        assert(s.remove(i) =~= s.drop_last());
    } else {
        lemma_sum_grps_remove(s.drop_last(), i);
        assert(s.remove(i).drop_last() =~= s.drop_last().remove(i));
        assert(s.remove(i).last() == s.last());
    }
}

/// Taking out the group of one label leaves every other label's seconds
/// unchanged.
pub proof fn lemma_lookup_after_remove(s: Seq<Grp>, label: Seq<char>, other: Seq<char>)
    requires
        other != label,
    ensures
        lookup_or_zero(remove_label(s, label), other) == lookup_or_zero(s, other),
{
    lemma_grp_index_props(s, label);
    let i = grp_index(s, label);
    if i >= 0 {
        let t = s.remove(i);
        lemma_grp_index_props(s, other);
        let j = grp_index(s, other);
        if j == -1 {
            assert forall|p: int| 0 <= p < t.len() implies (#[trigger] t[p]).label != other by {
                if p < i {
                    assert(t[p] == s[p]);
                } else {
                    assert(t[p] == s[p + 1]);
                }
            }
            lemma_grp_index_at(t, other, t.len() as int);
        } else {
            assert(s[j].label == other);
            assert(j != i);
            let j2 = if j < i {
                j
            } else {
                j - 1
            };
            assert(t[j2] == s[j]);
            assert forall|p: int| 0 <= p < j2 implies (#[trigger] t[p]).label != other by {
                if p < i {
                    assert(t[p] == s[p]);
                } else {
                    assert(t[p] == s[p + 1]);
                }
            }
            lemma_grp_index_at(t, other, j2);
        }
    }
}

pub proof fn lemma_nonneg_remove(s: Seq<Grp>, label: Seq<char>)
    requires
        nonneg_grps(s),
    ensures
        nonneg_grps(remove_label(s, label)),
{
    lemma_grp_index_props(s, label);
    let i = grp_index(s, label);
    if i >= 0 {
        let t = s.remove(i);
        assert forall|p: int| 0 <= p < t.len() implies (#[trigger] t[p]).seconds >= 0 by {
            if p < i {
                assert(t[p] == s[p]);
            } else {
                assert(t[p] == s[p + 1]);
            }
        }
    }
}

pub proof fn lemma_sum_remove_label(s: Seq<Grp>, label: Seq<char>)
    ensures
        sum_grps(remove_label(s, label)) == sum_grps(s) - lookup_or_zero(s, label),
{
    lemma_grp_index_props(s, label);
    let i = grp_index(s, label);
    if i >= 0 {
        lemma_sum_grps_remove(s, i);
    }
}

/// Rows that never bill `label` pull the same seconds whether or not that
/// label's group is present.
pub proof fn lemma_sum_lookups_after_remove(s: Seq<Grp>, label: Seq<char>, ccs: Seq<CostCenter>)
    requires
        forall|i: int| 0 <= i < ccs.len() ==> (#[trigger] ccs[i]).task.value@ != label,
    ensures
        sum_lookups(remove_label(s, label), ccs) == sum_lookups(s, ccs),
    decreases ccs.len(),
{
    if ccs.len() > 0 {
        lemma_sum_lookups_after_remove(s, label, ccs.drop_last());
        lemma_lookup_after_remove(s, label, ccs.last().task.value@);
    }
}

/// Distinct rows pull from the ticket pool at most once per label, so what
/// they pull in total never exceeds what the pool holds.
pub proof fn lemma_sum_lookups_bounded(tickets: Seq<Grp>, ccs: Seq<CostCenter>)
    requires
        distinct_tasks(ccs),
        nonneg_grps(tickets),
    ensures
        0 <= sum_lookups(tickets, ccs) <= sum_grps(tickets),
    decreases ccs.len(),
{
    if ccs.len() == 0 {
        lemma_sum_grps_nonneg(tickets);
    } else {
        let rest = ccs.drop_last();
        let ck = ccs.last().task.value@;
        let t2 = remove_label(tickets, ck);
        assert(distinct_tasks(rest));
        assert forall|i: int| 0 <= i < rest.len() implies (#[trigger] rest[i]).task.value@
            != ck by {
            assert(rest[i] == ccs[i]);
        }
        lemma_nonneg_remove(tickets, ck);
        lemma_sum_lookups_bounded(t2, rest);
        lemma_sum_lookups_after_remove(tickets, ck, rest);
        lemma_sum_remove_label(tickets, ck);
        lemma_lookup_nonneg(tickets, ck);
    }
}

/// Each prefix of the fold pulls no more than the whole fold does.
pub proof fn lemma_sum_lookups_rest(tickets: Seq<Grp>, ccs: Seq<CostCenter>, i: int)
    requires
        nonneg_grps(tickets),
        0 <= i < ccs.len(),
    ensures
        sum_lookups(tickets, ccs.take(i)) + lookup_or_zero(tickets, ccs[i].task.value@)
            == sum_lookups(tickets, ccs.take(i + 1)),
        sum_lookups(tickets, ccs.take(i + 1)) <= sum_lookups(tickets, ccs),
    decreases ccs.len() - i,
{
    assert(ccs.take(i + 1).drop_last() =~= ccs.take(i));
    assert(ccs.take(i + 1).last() == ccs[i]);
    if i + 1 < ccs.len() {
        lemma_sum_lookups_rest(tickets, ccs, i + 1);
        lemma_lookup_nonneg(tickets, ccs[i + 1].task.value@);
    } else {
        assert(ccs.take(i + 1) =~= ccs);
    }
}

/// Fold the resolved ticket time into the category pool, one cost-center
/// row at a time.
pub fn apply_cost_centers(
    cat: Vec<ReportGroup>,
    tickets: &Vec<ReportGroup>,
    cost_centers: &Vec<CostCenter>,
) -> (r: Vec<ReportGroup>)
    requires
        nonneg_grps(models(cat@)),
        nonneg_grps(models(tickets@)),
        sum_grps(models(cat@)) + sum_lookups(models(tickets@), cost_centers@) <= i64::MAX,
    ensures
        models(r@) == fold_cost_centers(models(cat@), models(tickets@), cost_centers@),
        nonneg_grps(models(r@)),
        sum_grps(models(r@)) == sum_grps(models(cat@)) + sum_lookups(
            models(tickets@),
            cost_centers@,
        ),
{
    let ghost cat0 = models(cat@);
    let ghost tk = models(tickets@);
    let mut out = cat;
    let n = cost_centers.len();
    proof {
        assert(cost_centers@.take(0) =~= Seq::<CostCenter>::empty());
    }
    let mut i: usize = 0;
    while i < n
        invariant
            i <= n,
            n == cost_centers@.len(),
            tk == models(tickets@),
            nonneg_grps(tk),
            sum_grps(cat0) + sum_lookups(tk, cost_centers@) <= i64::MAX,
            models(out@) == fold_cost_centers(cat0, tk, cost_centers@.take(i as int)),
            nonneg_grps(models(out@)),
            sum_grps(models(out@)) == sum_grps(cat0) + sum_lookups(
                tk,
                cost_centers@.take(i as int),
            ),
        decreases n - i,
    {
        proof {
            lemma_sum_lookups_rest(tk, cost_centers@, i as int);
            lemma_lookup_nonneg(tk, cost_centers@[i as int].task.value@);
        }
        let secs: i64 = match find_group(tickets, cost_centers[i].task.value.as_str()) {
            Some(j) => tickets[j].seconds,
            None => 0,
        };
        proof {
            assert(secs as int == lookup_or_zero(tk, cost_centers@[i as int].task.value@));
            assert(cost_centers@.take(i + 1).drop_last() =~= cost_centers@.take(i as int));
            assert(cost_centers@.take(i + 1).last() == cost_centers@[i as int]);
        }
        add_seconds(&mut out, cost_centers[i].cost_center.display_value.as_str(), secs);
        i = i + 1;
    }
    proof {
        assert(cost_centers@.take(n as int) =~= cost_centers@);
    }
    out
}

/// Whether `a` comes before `b` in the requested order: ascending or
/// descending by seconds. Stable sorting keeps ties in arrival order.
pub open spec fn ordered_before(a: Grp, b: Grp, asc: bool) -> bool {
    if asc {
        a.seconds < b.seconds
    } else {
        a.seconds > b.seconds
    }
}

/// Stable insertion: `g` goes in front of the first group it is strictly
/// ordered before, after every group it ties with.
pub open spec fn insert_sorted(g: Grp, s: Seq<Grp>, asc: bool) -> Seq<Grp>
    decreases s.len(),
{
    if s.len() == 0 {
        seq![g]
    } else if ordered_before(g, s[0], asc) {
        seq![g] + s
    } else {
        seq![s[0]] + insert_sorted(g, s.drop_first(), asc)
    }
}

/// Stable sort by seconds, folding the groups in left to right.
pub open spec fn sort_by_seconds(s: Seq<Grp>, asc: bool) -> Seq<Grp>
    decreases s.len(),
{
    if s.len() == 0 {
        Seq::empty()
    } else {
        insert_sorted(s.last(), sort_by_seconds(s.drop_last(), asc), asc)
    }
}

pub proof fn lemma_sum_grps_concat(a: Seq<Grp>, b: Seq<Grp>)
    ensures
        sum_grps(a + b) == sum_grps(a) + sum_grps(b),
    decreases b.len(),
{
    if b.len() == 0 {
        assert(a + b =~= a);
    } else {
        lemma_sum_grps_concat(a, b.drop_last());
        assert((a + b).drop_last() =~= a + b.drop_last());
        assert((a + b).last() == b.last());
    }
}

/// Insertion leaves the length, the sum, and non-negativity intact.
pub proof fn lemma_insert_sorted_props(g: Grp, s: Seq<Grp>, asc: bool)
    ensures
        insert_sorted(g, s, asc).len() == s.len() + 1,
        sum_grps(insert_sorted(g, s, asc)) == sum_grps(s) + g.seconds,
        nonneg_grps(s) && g.seconds >= 0 ==> nonneg_grps(insert_sorted(g, s, asc)),
    decreases s.len(),
{
    if s.len() == 0 {
        assert(insert_sorted(g, s, asc) =~= s.push(g));
        lemma_sum_grps_push(s, g);
    } else if ordered_before(g, s[0], asc) {
        lemma_sum_grps_concat(seq![g], s);
        assert(sum_grps(seq![g]) == g.seconds) by {
            assert(seq![g].last() == g);
            assert(seq![g].drop_last() =~= Seq::<Grp>::empty());
            assert(sum_grps(Seq::<Grp>::empty()) == 0);
            assert(sum_grps(seq![g]) == sum_grps(seq![g].drop_last()) + seq![g].last().seconds);
        }
    } else {
        lemma_insert_sorted_props(g, s.drop_first(), asc);
        lemma_sum_grps_concat(seq![s[0]], insert_sorted(g, s.drop_first(), asc));
        assert(sum_grps(seq![s[0]]) == s[0].seconds) by {
            assert(seq![s[0]].last() == s[0]);
            assert(seq![s[0]].drop_last() =~= Seq::<Grp>::empty());
            assert(sum_grps(Seq::<Grp>::empty()) == 0);
            assert(sum_grps(seq![s[0]]) == sum_grps(seq![s[0]].drop_last()) + seq![s[0]].last().seconds);
        }
        assert(sum_grps(s) == s[0].seconds + sum_grps(s.drop_first())) by {
            lemma_sum_grps_concat(seq![s[0]], s.drop_first());
            assert(seq![s[0]] + s.drop_first() =~= s);
        }
        if nonneg_grps(s) && g.seconds >= 0 {
            assert(nonneg_grps(s.drop_first()));
            let r = seq![s[0]] + insert_sorted(g, s.drop_first(), asc);
            assert forall|i: int| 0 <= i < r.len() implies (#[trigger] r[i]).seconds >= 0 by {
                if i > 0 {
                    assert(r[i] == insert_sorted(g, s.drop_first(), asc)[i - 1]);
                }
            }
        }
    }
}

/// Sorting leaves the length, the sum, and non-negativity intact.
pub proof fn lemma_sort_props(s: Seq<Grp>, asc: bool)
    ensures
        sort_by_seconds(s, asc).len() == s.len(),
        sum_grps(sort_by_seconds(s, asc)) == sum_grps(s),
        nonneg_grps(s) ==> nonneg_grps(sort_by_seconds(s, asc)),
    decreases s.len(),
{
    if s.len() > 0 {
        assert(nonneg_grps(s) ==> nonneg_grps(s.drop_last()));
        lemma_sort_props(s.drop_last(), asc);
        lemma_insert_sorted_props(s.last(), sort_by_seconds(s.drop_last(), asc), asc);
    }
}

/// A scan that found the first group `g` is ordered before pins down where
/// insertion places it.
pub proof fn lemma_insert_sorted_at(g: Grp, s: Seq<Grp>, asc: bool, p: int)
    requires
        0 <= p <= s.len(),
        forall|j: int| 0 <= j < p ==> !ordered_before(g, #[trigger] s[j], asc),
        p == s.len() || ordered_before(g, s[p], asc),
    ensures
        insert_sorted(g, s, asc) == s.take(p) + seq![g] + s.skip(p),
    decreases s.len(),
{
    if s.len() == 0 {
        assert(insert_sorted(g, s, asc) =~= s.take(p) + seq![g] + s.skip(p));
    } else if ordered_before(g, s[0], asc) {
        assert(p == 0);
        assert(insert_sorted(g, s, asc) =~= s.take(0) + seq![g] + s.skip(0));
    } else {
        assert(!ordered_before(g, s[0], asc));
        assert(p > 0) by {
            assert(p == s.len() || ordered_before(g, s[p], asc));
        }
        lemma_insert_sorted_at(g, s.drop_first(), asc, p - 1);
        assert(insert_sorted(g, s, asc) =~= s.take(p) + seq![g] + s.skip(p));
    }
}

/// Stable insertion sort of the groups by seconds.
fn sort_groups(v: Vec<ReportGroup>, asc: bool) -> (r: Vec<ReportGroup>)
    ensures
        models(r@) == sort_by_seconds(models(v@), asc),
{
    let ghost orig = v@;
    let mut rest = v;
    let mut out: Vec<ReportGroup> = Vec::new();
    let ghost mut i: int = 0;
    proof {
        assert(models(orig.take(0int)) =~= Seq::<Grp>::empty());
        assert(models(out@) =~= Seq::<Grp>::empty());
        assert(rest@ =~= orig.skip(0int));
    }
    while rest.len() > 0
        invariant
            0 <= i <= orig.len(),
            rest@ == orig.skip(i),
            models(out@) == sort_by_seconds(models(orig.take(i)), asc),
        decreases rest@.len(),
    {
        let g = rest.remove(0);
        proof {
            assert(orig.skip(i).remove(0) =~= orig.skip(i + 1));
            assert(g == orig[i]);
        }
        let ghost m = models(out@);
        let mut p: usize = 0;
        while p < out.len() && !(g.seconds > out[p].seconds && !asc) && !(g.seconds
            < out[p].seconds && asc)
            invariant
                p <= out.len(),
                m == models(out@),
                m.len() == out.len(),
                forall|j: int| 0 <= j < p ==> !ordered_before(g.model(), #[trigger] m[j], asc),
            decreases out.len() - p,
        {
            proof {
                assert(m[p as int] == out@[p as int].model());
            }
            p = p + 1;
        }
        proof {
            if p < out.len() {
                assert(ordered_before(g.model(), m[p as int], asc));
            }
            lemma_insert_sorted_at(g.model(), m, asc, p as int);
        }
        out.insert(p, g);
        proof {
            assert(models(out@) =~= m.take(p as int) + seq![g.model()] + m.skip(p as int));
            assert(models(orig.take(i + 1)).drop_last() =~= models(orig.take(i)));
            assert(models(orig.take(i + 1)).last() == orig[i].model());
            i = i + 1;
        }
    }
    proof {
        assert(orig.take(i) =~= orig);
    }
    out
}

/// Ranking: keep the `x` largest groups of the merged mapping and fold the
/// remainder into a synthetic "Other" group, present only where it holds
/// a positive amount.
pub open spec fn group_top_x_spec(s: Seq<Grp>, x: int) -> Seq<Grp> {
    let sorted = sort_by_seconds(s, false);
    if x < sorted.len() {
        let other = sum_grps(sorted.skip(x));
        if other > 0 {
            sorted.take(x).push(Grp { label: "Other"@, seconds: other })
        } else {
            sorted.take(x)
        }
    } else {
        sorted
    }
}

/// Rank the groups descending by seconds, keep the first `x`, and sum what
/// remains into "Other" (included only when positive).
pub fn group_top_x(groups: Vec<ReportGroup>, x: usize) -> (r: Vec<ReportGroup>)
    requires
        nonneg_grps(models(groups@)),
        sum_grps(models(groups@)) <= i64::MAX,
    ensures
        models(r@) == group_top_x_spec(models(groups@), x as int),
        nonneg_grps(models(r@)),
        sum_grps(models(r@)) == sum_grps(models(groups@)),
{
    let ghost m = models(groups@);
    proof {
        lemma_sort_props(m, false);
    }
    let mut sorted = sort_groups(groups, false);
    let ghost ms = models(sorted@);
    let n = sorted.len();
    if x >= n {
        return sorted;
    }
    let mut other: i64 = 0;
    let mut j: usize = x;
    proof {
        assert(ms.subrange(x as int, x as int) =~= Seq::<Grp>::empty());
        lemma_sum_grps_nonneg(ms);
    }
    while j < n
        invariant
            x <= j <= n,
            n == sorted@.len(),
            ms == models(sorted@),
            nonneg_grps(ms),
            sum_grps(ms) <= i64::MAX,
            other as int == sum_grps(ms.subrange(x as int, j as int)),
            0 <= other as int <= sum_grps(ms),
        decreases n - j,
    {
        proof {
            let pre = ms.subrange(x as int, j as int);
            assert(ms.subrange(x as int, j + 1).drop_last() =~= pre);
            assert(ms.subrange(x as int, j + 1).last() == ms[j as int]);
            assert(ms =~= ms.subrange(0, x as int) + ms.subrange(x as int, j + 1) + ms.subrange(
                j + 1,
                n as int,
            ));
            lemma_sum_grps_concat(
                ms.subrange(0, x as int) + ms.subrange(x as int, j + 1),
                ms.subrange(j + 1, n as int),
            );
            lemma_sum_grps_concat(ms.subrange(0, x as int), ms.subrange(x as int, j + 1));
            assert(nonneg_grps(ms.subrange(0, x as int)));
            assert(nonneg_grps(ms.subrange(j + 1, n as int)));
            lemma_sum_grps_nonneg(ms.subrange(0, x as int));
            lemma_sum_grps_nonneg(ms.subrange(j + 1, n as int));
        }
        other = other + sorted[j].seconds;
        j = j + 1;
    }
    proof {
        assert(ms.subrange(x as int, n as int) =~= ms.skip(x as int));
        assert(ms =~= ms.subrange(0, x as int) + ms.subrange(x as int, n as int));
        lemma_sum_grps_concat(ms.subrange(0, x as int), ms.subrange(x as int, n as int));
    }
    sorted.truncate(x);
    proof {
        assert(models(sorted@) =~= ms.take(x as int));
        assert(ms.take(x as int) =~= ms.subrange(0, x as int));
    }
    if other > 0 {
        sorted.push(ReportGroup { label: "Other".to_owned(), seconds: other });
        proof {
            assert(models(sorted@) =~= ms.take(x as int).push(
                Grp { label: "Other"@, seconds: other as int },
            ));
            lemma_sum_grps_push(
                ms.take(x as int),
                Grp { label: "Other"@, seconds: other as int },
            );
        }
    }
    sorted
}

/// Presentation order is ascending by seconds, smallest group first — a
/// separate concern from the descending ranking above.
pub fn presentation_sort(groups: Vec<ReportGroup>) -> (r: Vec<ReportGroup>)
    ensures
        models(r@) == sort_by_seconds(models(groups@), true),
{
    sort_groups(groups, true)
}

/// `HH:MM:SS` with every field zero-padded to two digits.
pub open spec fn pretty_seconds(secs: int) -> Seq<char>
    recommends
        0 <= secs,
{
    pad2_digits(secs / 3600) + ":"@ + pad2_digits((secs % 3600) / 60) + ":"@ + pad2_digits(
        secs % 60,
    )
}

/// Render a second count as zero-padded `HH:MM:SS`.
pub fn seconds_to_pretty(seconds: i64) -> (r: String)
    requires
        seconds >= 0,
    ensures
        r@ == pretty_seconds(seconds as int),
{
    let u = seconds as u64;
    let r = pad2_string(u / 3600).concat(":").concat(pad2_string((u % 3600) / 60).as_str()).concat(
        ":",
    ).concat(pad2_string(u % 60).as_str());
    proof {
        assert(r@ =~= pretty_seconds(seconds as int));
    }
    r
}

/// The configured weekly threshold at which a grand total is flagged.
pub const REPORT_WARNING_SECONDS: i64 = 32 * 3600;

/// How the grand total is highlighted.
#[derive(Clone, Copy, Debug, PartialEq, Eq, Structural)]
pub enum DisplayTier {
    Nominal,
    Warning,
}

pub open spec fn tier_of(total: int) -> DisplayTier {
    if total >= REPORT_WARNING_SECONDS {
        DisplayTier::Warning
    } else {
        DisplayTier::Nominal
    }
}

/// The display tier of a grand total: `Warning` once it crosses the
/// configured threshold, `Nominal` below it.
pub fn display_tier(total_seconds: i64) -> (r: DisplayTier)
    ensures
        r == tier_of(total_seconds as int),
{
    if total_seconds >= REPORT_WARNING_SECONDS {
        DisplayTier::Warning
    } else {
        DisplayTier::Nominal
    }
}

/// The whole aggregation: both passes, the ranking with its "Other" bucket,
/// and the ascending presentation order.
pub open spec fn report_groups_spec(
    entries: Seq<TimeWorked>,
    ccs: Seq<CostCenter>,
    top: int,
) -> Seq<Grp> {
    let acc = accumulate_spec(entries);
    sort_by_seconds(group_top_x_spec(fold_cost_centers(acc.0, acc.1, ccs), top), true)
}

/// Aggregate the raw entries into the displayed groups and the grand total.
///
/// The total is computed from the raw entries alone; the groups carry only
/// what the cost-center rows resolved, beside the category time.
pub fn aggregate_report(
    entries: &Vec<TimeWorked>,
    cost_centers: &Vec<CostCenter>,
    top: usize,
) -> (r: (Vec<ReportGroup>, i64))
    requires
        nonneg_entries(entries@),
        sum_seconds(entries@) <= i64::MAX,
        distinct_tasks(cost_centers@),
    ensures
        models(r.0@) == report_groups_spec(entries@, cost_centers@, top as int),
        r.1 as int == sum_seconds(entries@),
{
    let total = get_total(entries);
    let (cat, tkt) = accumulate_time(entries);
    proof {
        lemma_accumulate_sums(entries@);
        lemma_accumulate_wf(entries@);
        lemma_sum_lookups_bounded(models(tkt@), cost_centers@);
        lemma_sum_grps_nonneg(models(cat@));
        lemma_sum_grps_nonneg(models(tkt@));
    }
    let merged = apply_cost_centers(cat, &tkt, cost_centers);
    let ranked = group_top_x(merged, top);
    let rows = presentation_sort(ranked);
    (rows, total)
}

/// Where the requested count covers every distinct label, the ranking adds
/// no "Other" group: it returns exactly the sorted groups.
pub proof fn lemma_top_covers_all_no_other(s: Seq<Grp>, x: int)
    requires
        x >= s.len(),
    ensures
        group_top_x_spec(s, x) == sort_by_seconds(s, false),
{
    lemma_sort_props(s, false);
}

/// Whether a label can appear in the merged mapping: it names a category
/// group or a returned cost-center row.
pub open spec fn label_sourced(l: Seq<char>, cat: Seq<Grp>, ccs: Seq<CostCenter>) -> bool {
    (exists|i: int| 0 <= i < cat.len() && (#[trigger] cat[i]).label == l) || (exists|i: int|
        0 <= i < ccs.len() && (#[trigger] ccs[i]).cost_center.display_value@ == l)
}

proof fn lemma_fold_labels_sourced(cat: Seq<Grp>, tickets: Seq<Grp>, ccs: Seq<CostCenter>)
    ensures
        forall|j: int|
            0 <= j < fold_cost_centers(cat, tickets, ccs).len() ==> label_sourced(
                (#[trigger] fold_cost_centers(cat, tickets, ccs)[j]).label,
                cat,
                ccs,
            ),
    decreases ccs.len(),
{
    let f = fold_cost_centers(cat, tickets, ccs);
    if ccs.len() == 0 {
        assert forall|j: int| 0 <= j < f.len() implies label_sourced(
            (#[trigger] f[j]).label,
            cat,
            ccs,
        ) by {
            assert(cat[j].label == f[j].label);
        }
    } else {
        lemma_fold_labels_sourced(cat, tickets, ccs.drop_last());
        let prev = fold_cost_centers(cat, tickets, ccs.drop_last());
        let cc = ccs.last();
        lemma_grp_index_props(prev, cc.cost_center.display_value@);
        assert forall|j: int| 0 <= j < f.len() implies label_sourced(
            (#[trigger] f[j]).label,
            cat,
            ccs,
        ) by {
            let i = grp_index(prev, cc.cost_center.display_value@);
            if i >= 0 || j < prev.len() {
                assert(f[j].label == prev[j].label);
                assert(label_sourced(prev[j].label, cat, ccs.drop_last()));
                if exists|p: int|
                    0 <= p < ccs.drop_last().len() && (#[trigger] ccs.drop_last()[p]).cost_center.display_value@
                        == prev[j].label {
                    let p = choose|p: int|
                        0 <= p < ccs.drop_last().len()
                            && (#[trigger] ccs.drop_last()[p]).cost_center.display_value@
                            == prev[j].label;
                    assert(ccs[p].cost_center.display_value@ == prev[j].label);
                }
            } else {
                assert(f[j].label == cc.cost_center.display_value@);
                assert(ccs[ccs.len() - 1].cost_center.display_value@ == f[j].label);
            }
        }
    }
}

/// The resolution pass keeps every group non-negative.
pub proof fn lemma_fold_nonneg(cat: Seq<Grp>, tickets: Seq<Grp>, ccs: Seq<CostCenter>)
    requires
        nonneg_grps(cat),
        nonneg_grps(tickets),
    ensures
        nonneg_grps(fold_cost_centers(cat, tickets, ccs)),
    decreases ccs.len(),
{
    if ccs.len() > 0 {
        lemma_fold_nonneg(cat, tickets, ccs.drop_last());
        lemma_lookup_nonneg(tickets, ccs.last().task.value@);
        lemma_bump_nonneg(
            fold_cost_centers(cat, tickets, ccs.drop_last()),
            ccs.last().cost_center.display_value@,
            lookup_or_zero(tickets, ccs.last().task.value@),
        );
    }
}

/// Ranking preserves the groups' combined seconds: the "Other" bucket
/// carries exactly what the dropped tail held, and is left out only where
/// that tail held nothing.
pub proof fn lemma_group_top_x_sum(s: Seq<Grp>, x: int)
    requires
        nonneg_grps(s),
        0 <= x,
    ensures
        sum_grps(group_top_x_spec(s, x)) == sum_grps(s),
{
    lemma_sort_props(s, false);
    let sorted = sort_by_seconds(s, false);
    if x < sorted.len() {
        assert(sorted =~= sorted.take(x) + sorted.skip(x));
        lemma_sum_grps_concat(sorted.take(x), sorted.skip(x));
        let other = sum_grps(sorted.skip(x));
        if other > 0 {
            lemma_sum_grps_push(sorted.take(x), Grp { label: "Other"@, seconds: other });
        } else {
            assert(nonneg_grps(sorted.skip(x)));
            lemma_sum_grps_nonneg(sorted.skip(x));
        }
    }
}

/// An entry whose ticket id no cost-center row resolves still counts in the
/// grand total — the total is read off the raw entries alone — but reaches
/// no displayed group: every merged label stems from a category entry or a
/// returned row, and the displayed groups together never hold more than
/// the total.
pub proof fn lemma_unresolved_only_in_total(entries: Seq<TimeWorked>, ccs: Seq<CostCenter>)
    requires
        nonneg_entries(entries),
        distinct_tasks(ccs),
    ensures
        forall|j: int|
            0 <= j < fold_cost_centers(
                accumulate_spec(entries).0,
                accumulate_spec(entries).1,
                ccs,
            ).len() ==> label_sourced(
                (#[trigger] fold_cost_centers(
                    accumulate_spec(entries).0,
                    accumulate_spec(entries).1,
                    ccs,
                )[j]).label,
                accumulate_spec(entries).0,
                ccs,
            ),
        sum_grps(fold_cost_centers(accumulate_spec(entries).0, accumulate_spec(entries).1, ccs))
            <= sum_seconds(entries),
        forall|top: int|
            0 <= top ==> sum_grps(#[trigger] report_groups_spec(entries, ccs, top)) <= sum_seconds(
                entries,
            ),
{
    let acc = accumulate_spec(entries);
    lemma_fold_labels_sourced(acc.0, acc.1, ccs);
    lemma_accumulate_sums(entries);
    lemma_accumulate_wf(entries);
    lemma_sum_lookups_bounded(acc.1, ccs);
    lemma_fold_sum(acc.0, acc.1, ccs);
    let merged = fold_cost_centers(acc.0, acc.1, ccs);
    lemma_fold_nonneg(acc.0, acc.1, ccs);
    assert forall|top: int| 0 <= top implies sum_grps(
        #[trigger] report_groups_spec(entries, ccs, top),
    ) <= sum_seconds(entries) by {
        lemma_group_top_x_sum(merged, top);
        lemma_sort_props(group_top_x_spec(merged, top), true);
    }
}

/// The fold adds exactly what the rows pull out of the ticket pool.
pub proof fn lemma_fold_sum(cat: Seq<Grp>, tickets: Seq<Grp>, ccs: Seq<CostCenter>)
    ensures
        sum_grps(fold_cost_centers(cat, tickets, ccs)) == sum_grps(cat) + sum_lookups(
            tickets,
            ccs,
        ),
    decreases ccs.len(),
{
    if ccs.len() > 0 {
        lemma_fold_sum(cat, tickets, ccs.drop_last());
        lemma_bump_sum(
            fold_cost_centers(cat, tickets, ccs.drop_last()),
            ccs.last().cost_center.display_value@,
            lookup_or_zero(tickets, ccs.last().task.value@),
        );
    }
}

/// The part of the total not yet folded in is itself non-negative, so each
/// prefix total stays under the grand total.
pub proof fn lemma_sum_seconds_rest(s: Seq<TimeWorked>, i: int)
    requires
        nonneg_entries(s),
        0 <= i < s.len(),
    ensures
        sum_seconds(s.take(i)) + entry_seconds(s[i]) == sum_seconds(s.take(i + 1)),
        sum_seconds(s.take(i + 1)) <= sum_seconds(s),
    decreases s.len() - i,
{
    assert(s.take(i + 1).drop_last() =~= s.take(i));
    assert(s.take(i + 1).last() == s[i]);
    if i + 1 < s.len() {
        lemma_sum_seconds_rest(s, i + 1);
        assert(entry_seconds(s[i + 1]) >= 0);
    } else {
        assert(s.take(i + 1) =~= s);
    }
}

} // verus!
