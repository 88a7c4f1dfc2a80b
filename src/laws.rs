//! That the index depends on what was observed, not on the order of the walk.

use vstd::prelude::*;
use crate::indexer::{
    is_index_of, is_sorted, record_lt, record_of, records_of,
    IndexerConfig, ObservationView,
};
use crate::project::ProjectRecord;
use crate::tags::texts;
use crate::text::lemma_text_lt_total;

verus! {

/// No two observations are of one path.
pub open spec fn paths_distinct(os: Seq<ObservationView>) -> bool {
    forall|i: int, j: int| 0 <= i < os.len() && 0 <= j < os.len() && i != j ==> os[i].0 != os[j].0
}

/// No two records are of one path.
pub open spec fn record_paths_distinct(rs: Seq<ProjectRecord>) -> bool {
    forall|i: int, j: int| 0 <= i < rs.len() && 0 <= j < rs.len() && i != j ==> rs[i].1 != rs[j].1
}

/// Records of different paths are ordered one way or the other.
proof fn lemma_record_lt_total(a: ProjectRecord, b: ProjectRecord)
    requires
        a.1 != b.1,
    ensures
        record_lt(a, b) || record_lt(b, a),
{
    if a.2 != b.2 {
        lemma_text_lt_total(a.2, b.2);
    } else if a.0 != b.0 {
        lemma_text_lt_total(a.0, b.0);
    } else {
        lemma_text_lt_total(a.1, b.1);
    }
}

/// A record stems from the observations exactly when one of them gives it.
proof fn lemma_records_of_member(cfg: IndexerConfig, os: Seq<ObservationView>, r: ProjectRecord)
    ensures
        records_of(cfg, os).contains(r) <==> exists|i: int|
            0 <= i < os.len() && record_of(cfg, #[trigger] os[i]) == Some(r),
    decreases os.len(),
{
    if os.len() > 0 {
        let init = os.drop_last();
        lemma_records_of_member(cfg, init, r);
        if records_of(cfg, os).contains(r) {
            let k = choose|k: int| 0 <= k < records_of(cfg, os).len() && records_of(cfg, os)[k] == r;
            if k < records_of(cfg, init).len() {
                assert(records_of(cfg, init)[k] == r);
                let i = choose|i: int| 0 <= i < init.len() && record_of(cfg, #[trigger] init[i]) == Some(r);
                assert(os[i] == init[i]);
            } else {
                assert(record_of(cfg, os[os.len() - 1]) == Some(r));
            }
        }
        if exists|i: int| 0 <= i < os.len() && record_of(cfg, #[trigger] os[i]) == Some(r) {
            let i = choose|i: int| 0 <= i < os.len() && record_of(cfg, #[trigger] os[i]) == Some(r);
            if i < os.len() - 1 {
                assert(init[i] == os[i]);
                let k = choose|k: int| 0 <= k < records_of(cfg, init).len() && records_of(cfg, init)[k] == r;
                assert(records_of(cfg, os)[k] == r);
            } else {
                let rs = records_of(cfg, os);
                assert(rs[rs.len() - 1] == r);
            }
        }
    }
}

/// Observations of different paths give records of different paths.
proof fn lemma_records_of_paths_distinct(cfg: IndexerConfig, os: Seq<ObservationView>)
    requires
        paths_distinct(os),
    ensures
        record_paths_distinct(records_of(cfg, os)),
    decreases os.len(),
{
    if os.len() > 0 {
        let init = os.drop_last();
        assert(paths_distinct(init)) by {
            assert forall|i: int, j: int| 0 <= i < init.len() && 0 <= j < init.len() && i != j
                implies init[i].0 != init[j].0 by {
                assert(init[i] == os[i] && init[j] == os[j]);
            }
        }
        lemma_records_of_paths_distinct(cfg, init);
        let ri = records_of(cfg, init);
        let rs = records_of(cfg, os);
        if let Some(last) = record_of(cfg, os.last()) {
            assert forall|i: int, j: int| 0 <= i < rs.len() && 0 <= j < rs.len() && i != j
                implies rs[i].1 != rs[j].1 by {
                if i < ri.len() && j < ri.len() {
                    assert(rs[i] == ri[i] && rs[j] == ri[j]);
                } else {
                    let k = if i < ri.len() { i } else { j };
                    assert(rs[k] == ri[k]);
                    assert(ri.contains(ri[k]));
                    lemma_records_of_member(cfg, init, ri[k]);
                    let m = choose|m: int| 0 <= m < init.len() && record_of(cfg, #[trigger] init[m]) == Some(ri[k]);
                    assert(init[m] == os[m]);
                    assert(ri[k].1 == os[m].0);
                    assert(last.1 == os[os.len() - 1].0);
                }
            }
        }
    }
}

/// Two sorted sequences of records with the same members, each of pairwise
/// different paths, are equal.
proof fn lemma_sorted_unique(x: Seq<ProjectRecord>, y: Seq<ProjectRecord>)
    requires
        is_sorted(x),
        is_sorted(y),
        record_paths_distinct(x),
        record_paths_distinct(y),
        forall|r: ProjectRecord| x.contains(r) <==> y.contains(r),
    ensures
        x == y,
    decreases x.len(),
{
    if x.len() == 0 {
        if y.len() > 0 {
            assert(y.contains(y[0]));
        }
        assert(x =~= y);
    } else {
        assert(x.contains(x[0]));
        assert(y.len() > 0);
        assert(y.contains(y[0]));
        let q = choose|q: int| 0 <= q < y.len() && y[q] == x[0];
        let p = choose|p: int| 0 <= p < x.len() && x[p] == y[0];
        if x[0] != y[0] {
            assert(q > 0 && p > 0);
            assert(!record_lt(y[q], y[0]));
            assert(!record_lt(x[p], x[0]));
            assert(x[0].1 != x[p].1);
            lemma_record_lt_total(x[0], y[0]);
        }
        let x1 = x.drop_first();
        let y1 = y.drop_first();
        assert forall|r: ProjectRecord| x1.contains(r) <==> y1.contains(r) by {
            if x1.contains(r) {
                let k = choose|k: int| 0 <= k < x1.len() && x1[k] == r;
                assert(x[k + 1] == r);
                assert(x.contains(r));
                let m = choose|m: int| 0 <= m < y.len() && y[m] == r;
                if m == 0 {
                    assert(x[0].1 != x[k + 1].1);
                } else {
                    assert(y1[m - 1] == r);
                }
            }
            if y1.contains(r) {
                let k = choose|k: int| 0 <= k < y1.len() && y1[k] == r;
                assert(y[k + 1] == r);
                assert(y.contains(r));
                let m = choose|m: int| 0 <= m < x.len() && x[m] == r;
                if m == 0 {
                    assert(y[0].1 != y[k + 1].1);
                } else {
                    assert(x1[m - 1] == r);
                }
            }
        }
        assert(is_sorted(x1)) by {
            assert forall|i: int, j: int| 0 <= i < j < x1.len() implies !record_lt(
                #[trigger] x1[j],
                #[trigger] x1[i],
            ) by {
                assert(x1[i] == x[i + 1] && x1[j] == x[j + 1]);
            }
        }
        assert(is_sorted(y1)) by {
            assert forall|i: int, j: int| 0 <= i < j < y1.len() implies !record_lt(
                #[trigger] y1[j],
                #[trigger] y1[i],
            ) by {
                assert(y1[i] == y[i + 1] && y1[j] == y[j + 1]);
            }
        }
        assert(record_paths_distinct(x1)) by {
            assert forall|i: int, j: int| 0 <= i < x1.len() && 0 <= j < x1.len() && i != j
                implies x1[i].1 != x1[j].1 by {
                assert(x1[i] == x[i + 1] && x1[j] == x[j + 1]);
            }
        }
        assert(record_paths_distinct(y1)) by {
            assert forall|i: int, j: int| 0 <= i < y1.len() && 0 <= j < y1.len() && i != j
                implies y1[i].1 != y1[j].1 by {
                assert(y1[i] == y[i + 1] && y1[j] == y[j + 1]);
            }
        }
        lemma_sorted_unique(x1, y1);
        assert(x =~= seq![x[0]] + x1);
        assert(y =~= seq![y[0]] + y1);
    }
}

/// An index holds the records of its observations, each once, so its
/// records are of pairwise different paths, and its members are those
/// records.
proof fn lemma_index_members(cfg: IndexerConfig, os: Seq<ObservationView>, x: Seq<ProjectRecord>)
    requires
        paths_distinct(os),
        is_index_of(cfg, os, x),
    ensures
        record_paths_distinct(x),
        forall|r: ProjectRecord| x.contains(r) <==> records_of(cfg, os).contains(r),
{
    broadcast use vstd::seq_lib::group_to_multiset_ensures;

    let rs = records_of(cfg, os);
    lemma_records_of_paths_distinct(cfg, os);
    assert forall|r: ProjectRecord| x.contains(r) <==> rs.contains(r) by {
        assert(x.to_multiset().count(r) == rs.to_multiset().count(r));
    }
    assert(rs.no_duplicates()) by {
        assert forall|i: int, j: int| 0 <= i < rs.len() && 0 <= j < rs.len() && i != j
            implies rs[i] != rs[j] by {
            assert(rs[i].1 != rs[j].1);
        }
    }
    rs.lemma_multiset_has_no_duplicates();
    x.lemma_multiset_has_no_duplicates_conv();
    assert forall|i: int, j: int| 0 <= i < x.len() && 0 <= j < x.len() && i != j
        implies x[i].1 != x[j].1 by {
        assert(x.contains(x[i]) && x.contains(x[j]));
        let p = choose|p: int| 0 <= p < rs.len() && rs[p] == x[i];
        let q = choose|q: int| 0 <= q < rs.len() && rs[q] == x[j];
        assert(x[i] != x[j]);
    }
}

/// Building the index twice over the same directories, observed alike but
/// walked in any order, gives the same index.
pub proof fn lemma_index_independent_of_walk_order(
    cfg: IndexerConfig,
    a: Seq<ObservationView>,
    b: Seq<ObservationView>,
    x: Seq<ProjectRecord>,
    y: Seq<ProjectRecord>,
)
    requires
        paths_distinct(a),
        paths_distinct(b),
        forall|o: ObservationView| a.contains(o) <==> b.contains(o),
        is_index_of(cfg, a, x),
        is_index_of(cfg, b, y),
    ensures
        x == y,
{
    lemma_index_members(cfg, a, x);
    lemma_index_members(cfg, b, y);
    assert forall|r: ProjectRecord| x.contains(r) <==> y.contains(r) by {
        lemma_records_of_member(cfg, a, r);
        lemma_records_of_member(cfg, b, r);
        if exists|i: int| 0 <= i < a.len() && record_of(cfg, #[trigger] a[i]) == Some(r) {
            let i = choose|i: int| 0 <= i < a.len() && record_of(cfg, #[trigger] a[i]) == Some(r);
            assert(a.contains(a[i]));
            let j = choose|j: int| 0 <= j < b.len() && b[j] == a[i];
            assert(record_of(cfg, b[j]) == Some(r));
        }
        if exists|i: int| 0 <= i < b.len() && record_of(cfg, #[trigger] b[i]) == Some(r) {
            let i = choose|i: int| 0 <= i < b.len() && record_of(cfg, #[trigger] b[i]) == Some(r);
            assert(b.contains(b[i]));
            let j = choose|j: int| 0 <= j < a.len() && a[j] == b[i];
            assert(record_of(cfg, a[j]) == Some(r));
        }
    }
    lemma_sorted_unique(x, y);
}

/// Two configurations that differ at most in whether tags are asked for.
pub open spec fn same_but_enrichment(a: IndexerConfig, b: IndexerConfig) -> bool {
    &&& a.projects_dir@ == b.projects_dir@
    &&& a.min_depth == b.min_depth
    &&& a.max_depth == b.max_depth
    &&& texts(a.excluded@) == texts(b.excluded@)
}

/// Without a response, whether tags were asked for changes no record.
proof fn lemma_records_without_responses(a: IndexerConfig, b: IndexerConfig, os: Seq<ObservationView>)
    requires
        same_but_enrichment(a, b),
        forall|i: int| 0 <= i < os.len() ==> (#[trigger] os[i]).3 is None,
    ensures
        records_of(a, os) == records_of(b, os),
    decreases os.len(),
{
    if os.len() > 0 {
        let init = os.drop_last();
        assert forall|i: int| 0 <= i < init.len() implies (#[trigger] init[i]).3 is None by {
            assert(init[i] == os[i]);
        }
        lemma_records_without_responses(a, b, init);
        assert(os.last() == os[os.len() - 1]);
        assert(record_of(a, os.last()) == record_of(b, os.last()));
    }
}

/// When every request for tags fails, the index is the one built with tags
/// not asked for: the same projects, in the same order, none with tags.
pub proof fn lemma_failed_enrichment_changes_nothing(
    enabled: IndexerConfig,
    disabled: IndexerConfig,
    os: Seq<ObservationView>,
    x: Seq<ProjectRecord>,
    y: Seq<ProjectRecord>,
)
    requires
        same_but_enrichment(enabled, disabled),
        !disabled.enable_ollama,
        paths_distinct(os),
        forall|i: int| 0 <= i < os.len() ==> (#[trigger] os[i]).3 is None,
        is_index_of(enabled, os, x),
        is_index_of(disabled, os, y),
    ensures
        x == y,
        forall|k: int| 0 <= k < x.len() ==> (#[trigger] x[k]).4.len() == 0,
{
    lemma_records_without_responses(enabled, disabled, os);
    lemma_index_members(enabled, os, x);
    lemma_index_members(disabled, os, y);
    lemma_sorted_unique(x, y);
    assert forall|k: int| 0 <= k < x.len() implies (#[trigger] x[k]).4.len() == 0 by {
        assert(x.contains(x[k]));
        lemma_records_of_member(disabled, os, x[k]);
        let i = choose|i: int| 0 <= i < os.len() && record_of(disabled, #[trigger] os[i]) == Some(x[k]);
        assert(os[i].3 is None);
    }
}

} // verus!
