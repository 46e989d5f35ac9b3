//! Properties that relate several runs of the pipeline.

use vstd::prelude::*;
use crate::record::RecordView;
use crate::keys::{duration_keys, mechanism_keys, mechanism_set, target_set};
use crate::chart::{file_name_of, labels_of};

verus! {

/// The image file names of the charts of `s`, in chart order.
pub open spec fn file_names(s: Seq<RecordView>) -> Seq<Seq<char>> {
    labels_of(duration_keys(s)).map_values(|l: Seq<char>| file_name_of(l))
}

/// Reordering the input rows changes neither the order of the charts, nor
/// the order of the series within a chart, nor the chart file names.
pub proof fn lemma_order_ignores_row_order(a: Seq<RecordView>, b: Seq<RecordView>)
    requires
        a.to_multiset() == b.to_multiset(),
    ensures
        duration_keys(a) == duration_keys(b),
        mechanism_keys(a) == mechanism_keys(b),
        file_names(a) == file_names(b),
{
    broadcast use vstd::seq_lib::group_to_multiset_ensures;

    assert(forall|x: RecordView| a.contains(x) <==> a.to_multiset().count(x) > 0);
    assert(forall|x: RecordView| b.contains(x) <==> b.to_multiset().count(x) > 0);
    assert forall|t: i64| target_set(a).contains(t) <==> target_set(b).contains(t) by {
        if target_set(a).contains(t) {
            let i = choose|i: int| 0 <= i < a.len() && a[i].target_ns == t;
            assert(a.contains(a[i]));
            let j = choose|j: int| 0 <= j < b.len() && b[j] == a[i];
            assert(b[j].target_ns == t);
        }
        if target_set(b).contains(t) {
            let i = choose|i: int| 0 <= i < b.len() && b[i].target_ns == t;
            assert(b.contains(b[i]));
            let j = choose|j: int| 0 <= j < a.len() && a[j] == b[i];
            assert(a[j].target_ns == t);
        }
    }
    assert forall|m: Seq<char>| mechanism_set(a).contains(m) <==> mechanism_set(b).contains(m) by {
        if mechanism_set(a).contains(m) {
            let i = choose|i: int| 0 <= i < a.len() && a[i].sleep_type == m;
            assert(a.contains(a[i]));
            let j = choose|j: int| 0 <= j < b.len() && b[j] == a[i];
            assert(b[j].sleep_type == m);
        }
        if mechanism_set(b).contains(m) {
            let i = choose|i: int| 0 <= i < b.len() && b[i].sleep_type == m;
            assert(b.contains(b[i]));
            let j = choose|j: int| 0 <= j < a.len() && a[j] == b[i];
            assert(a[j].sleep_type == m);
        }
    }
    assert(target_set(a) =~= target_set(b));
    assert(mechanism_set(a) =~= mechanism_set(b));
}

/// Running the pipeline twice on the same input names the same files.
pub proof fn lemma_file_names_repeatable(a: Seq<RecordView>, b: Seq<RecordView>)
    requires
        a == b,
    ensures
        file_names(a) == file_names(b),
{
    lemma_order_ignores_row_order(a, b);
}

} // verus!
