//! Statistics of an index.

use vstd::prelude::*;
use crate::indexer::records;
use crate::project::{Project, ProjectRecord, ProjectStatus};

verus! {

/// How many records have the status.
pub open spec fn count_status(rs: Seq<ProjectRecord>, s: ProjectStatus) -> nat
    decreases rs.len(),
{
    if rs.len() == 0 {
        0
    } else {
        count_status(rs.drop_last(), s) + if rs.last().3 == s {
            1nat
        } else {
            0nat
        }
    }
}

/// How many tags the records hold together.
pub open spec fn tag_total(rs: Seq<ProjectRecord>) -> nat
    decreases rs.len(),
{
    if rs.len() == 0 {
        0
    } else {
        tag_total(rs.drop_last()) + rs.last().4.len()
    }
}

/// The position of category `c` in `cs` at or after `k`, or -1.
pub open spec fn category_index_from(cs: Seq<(Seq<char>, nat)>, c: Seq<char>, k: int) -> int
    decreases cs.len() - k,
{
    if k < 0 || k >= cs.len() {
        -1
    } else if cs[k].0 == c {
        k
    } else {
        category_index_from(cs, c, k + 1)
    }
}

/// `cs` with one more project of category `c`.
pub open spec fn bump(cs: Seq<(Seq<char>, nat)>, c: Seq<char>) -> Seq<(Seq<char>, nat)> {
    let k = category_index_from(cs, c, 0);
    if k >= 0 {
        cs.update(k, (c, cs[k].1 + 1))
    } else {
        cs.push((c, 1nat))
    }
}

/// Each category with its number of projects, in order of first appearance.
pub open spec fn category_counts(rs: Seq<ProjectRecord>) -> Seq<(Seq<char>, nat)>
    decreases rs.len(),
{
    if rs.len() == 0 {
        Seq::empty()
    } else {
        bump(category_counts(rs.drop_last()), rs.last().2)
    }
}

/// The figures shown of an index.
#[derive(Clone, Debug)]
pub struct IndexStats {
    pub total: usize,
    pub active: usize,
    pub archived: usize,
    /// Each category with its number of projects, in order of first
    /// appearance.
    pub by_category: Vec<(String, usize)>,
    pub total_tags: usize,
}

pub open spec fn counts_view(v: Seq<(String, usize)>) -> Seq<(Seq<char>, nat)> {
    v.map_values(|p: (String, usize)| (p.0@, p.1 as nat))
}

/// The statistics of a list of projects.
pub fn index_stats(projects: &Vec<Project>) -> (r: IndexStats)
    requires
        tag_total(records(projects@)) <= usize::MAX,
    ensures
        r.total == projects@.len(),
        r.active == count_status(records(projects@), ProjectStatus::Active),
        r.archived == count_status(records(projects@), ProjectStatus::Archived),
        counts_view(r.by_category@) == category_counts(records(projects@)),
        r.total_tags == tag_total(records(projects@)),
{
    let ghost rs = records(projects@);
    let mut active: usize = 0;
    let mut archived: usize = 0;
    let mut total_tags: usize = 0;
    let mut by_category: Vec<(String, usize)> = Vec::new();
    let mut i: usize = 0;
    assert(rs.subrange(0, 0) =~= Seq::<ProjectRecord>::empty());
    assert(counts_view(by_category@) =~= Seq::<(Seq<char>, nat)>::empty());
    while i < projects.len()
        invariant
            i <= projects@.len(),
            rs == records(projects@),
            tag_total(rs) <= usize::MAX,
            active == count_status(rs.subrange(0, i as int), ProjectStatus::Active),
            archived == count_status(rs.subrange(0, i as int), ProjectStatus::Archived),
            total_tags == tag_total(rs.subrange(0, i as int)),
            counts_view(by_category@) == category_counts(rs.subrange(0, i as int)),
            active <= i,
            archived <= i,
            forall|k: int| 0 <= k < by_category@.len() ==> (#[trigger] by_category@[k]).1 <= i,
        decreases projects.len() - i,
    {
        let ghost pre = rs.subrange(0, i as int);
        let ghost next = rs.subrange(0, i + 1);
        assert(next.drop_last() =~= pre);
        assert(next.last() == projects@[i as int]@);
        proof {
            lemma_tag_total_prefix(rs, i + 1);
        }
        let p = &projects[i];
        if p.status == ProjectStatus::Active {
            active = active + 1;
        }
        if p.status == ProjectStatus::Archived {
            archived = archived + 1;
        }
        total_tags = total_tags + p.tags.len();
        let ghost cv = counts_view(by_category@);
        let mut k: usize = 0;
        while k < by_category.len() && by_category[k].0 != p.category
            invariant
                k <= by_category@.len(),
                cv == counts_view(by_category@),
                category_index_from(cv, p.category@, 0) == category_index_from(cv, p.category@, k as int),
            decreases by_category.len() - k,
        {
            assert(cv[k as int].0 == by_category@[k as int].0@);
            k = k + 1;
        }
        if k < by_category.len() {
            assert(cv[k as int].0 == by_category@[k as int].0@);
            let count = by_category[k].1;
            let ghost before = by_category@;
            by_category.set(k, (p.category.clone(), count + 1));
            assert(counts_view(by_category@) =~= bump(cv, p.category@));
            assert forall|q: int| 0 <= q < by_category@.len() implies (#[trigger] by_category@[q]).1 <= i + 1 by {
                if q != k {
                    assert(by_category@[q] == before[q]);
                }
            }
        } else {
            let ghost before = by_category@;
            by_category.push((p.category.clone(), 1));
            assert(counts_view(by_category@) =~= bump(cv, p.category@));
            assert forall|q: int| 0 <= q < by_category@.len() implies (#[trigger] by_category@[q]).1 <= i + 1 by {
                if q < before.len() {
                    assert(by_category@[q] == before[q]);
                }
            }
        }
        i = i + 1;
    }
    assert(rs.subrange(0, projects@.len() as int) =~= rs);
    IndexStats { total: projects.len(), active, archived, by_category, total_tags }
}

/// The tags of a prefix are no more than those of the whole.
proof fn lemma_tag_total_prefix(rs: Seq<ProjectRecord>, i: int)
    requires
        0 <= i <= rs.len(),
    ensures
        tag_total(rs.subrange(0, i)) <= tag_total(rs),
    decreases rs.len(),
{
    if i < rs.len() {
        assert(rs.drop_last().subrange(0, i) =~= rs.subrange(0, i));
        lemma_tag_total_prefix(rs.drop_last(), i);
    } else {
        assert(rs.subrange(0, i) =~= rs);
    }
}

} // verus!
