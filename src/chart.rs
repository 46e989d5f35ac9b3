//! Partitioning records by key, error series, and one chart layout per
//! requested duration.

use vstd::prelude::*;
use humanize_duration::prelude::DurationExt;
use crate::record::{all_wf, views, Record, RecordView};
use crate::text::text_lt;
use crate::keys::{
    duration_keys,
    mechanism_keys,
    mechanism_set,
    target_set,
    texts,
    unique_durations,
    unique_mechanisms,
};

verus! {

/// Record `r` belongs to the group of mechanism `m` and duration `t`.
pub open spec fn in_group(r: RecordView, m: Seq<char>, t: i64) -> bool {
    r.sleep_type == m && r.target_ns == t
}

/// The records of `s` in the group (`m`, `t`), in their order in `s`.
pub open spec fn partition(s: Seq<RecordView>, m: Seq<char>, t: i64) -> Seq<RecordView>
    decreases s.len(),
{
    if s.len() == 0 {
        Seq::empty()
    } else {
        let p = partition(s.drop_last(), m, t);
        if in_group(s.last(), m, t) {
            p.push(s.last())
        } else {
            p
        }
    }
}

/// Scheduling error of a record: observed minus requested, in nanoseconds.
pub open spec fn error_ns(r: RecordView) -> int {
    r.actual_ns - r.target_ns
}

/// The scheduling errors of a sequence of records, in order.
pub open spec fn errors_of(s: Seq<RecordView>) -> Seq<i64> {
    s.map_values(|r: RecordView| error_ns(r) as i64)
}

/// The records of mechanism `sleep_type` and requested duration
/// `target_ns`, in their input order.
pub fn get_records(records: &Vec<Record>, sleep_type: &str, target_ns: i64) -> (r: Vec<Record>)
    ensures
        views(r@) == partition(views(records@), sleep_type@, target_ns),
{
    let ghost s = views(records@);
    let mut out: Vec<Record> = Vec::new();
    let mut i: usize = 0;
    assert(views(out@) =~= partition(s.take(0), sleep_type@, target_ns));
    while i < records.len()
        invariant
            i <= records@.len(),
            s == views(records@),
            views(out@) == partition(s.take(i as int), sleep_type@, target_ns),
        decreases records@.len() - i,
    {
        let rec = &records[i];
        assert(s.take(i + 1).drop_last() =~= s.take(i as int));
        assert(s.take(i + 1).last() == rec@);
        if rec.target_ns == target_ns && crate::text::same_text(rec.sleep_type.as_str(), sleep_type) {
            out.push(rec.duplicate());
            assert(views(out@) =~= partition(s.take(i as int), sleep_type@, target_ns).push(rec@));
        }
        i = i + 1;
    }
    assert(s.take(records@.len() as int) =~= s);
    out
}

/// The scheduling error of each record, in nanoseconds, in order.
pub fn error_series(records: &Vec<Record>) -> (r: Vec<i64>)
    requires
        all_wf(views(records@)),
    ensures
        r@ == errors_of(views(records@)),
{
    let ghost s = views(records@);
    let mut out: Vec<i64> = Vec::new();
    let mut i: usize = 0;
    while i < records.len()
        invariant
            i <= records@.len(),
            s == views(records@),
            all_wf(s),
            out@ == errors_of(s.take(i as int)),
        decreases records@.len() - i,
    {
        assert(s[i as int].wf());
        let e = records[i].actual_ns - records[i].target_ns;
        out.push(e);
        assert(errors_of(s.take(i + 1)) =~= errors_of(s.take(i as int)).push(e));
        i = i + 1;
    }
    assert(s.take(records@.len() as int) =~= s);
    out
}

/// Every record of a group is a record of the input.
pub proof fn lemma_partition_wf(s: Seq<RecordView>, m: Seq<char>, t: i64)
    requires
        all_wf(s),
    ensures
        all_wf(partition(s, m, t)),
    decreases s.len(),
{
    if s.len() > 0 {
        lemma_partition_wf(s.drop_last(), m, t);
        assert(s.last() == s[s.len() - 1]);
    }
}

/// One labelled series of a chart: the errors of one mechanism.
pub struct Series {
    /// The mechanism, as written in the input.
    pub name: String,
    /// Scheduling errors in nanoseconds, in input order.
    pub errors_ns: Vec<i64>,
}

pub struct SeriesView {
    pub name: Seq<char>,
    pub errors_ns: Seq<i64>,
}

impl View for Series {
    type V = SeriesView;

    open spec fn view(&self) -> SeriesView {
        SeriesView { name: self.name@, errors_ns: self.errors_ns@ }
    }
}

/// The layout of the chart of one requested duration.
pub struct ChartPlan {
    /// The requested duration that the chart shows.
    pub duration_ns: i64,
    /// Human-readable form of the duration.
    pub label: String,
    pub title: String,
    /// Title of the value axis.
    pub y_axis_title: String,
    /// Name of the image file that the chart is written to.
    pub file_name: String,
    /// One series per mechanism, in mechanism order.
    pub series: Vec<Series>,
}

pub struct ChartView {
    pub duration_ns: i64,
    pub label: Seq<char>,
    pub title: Seq<char>,
    pub y_axis_title: Seq<char>,
    pub file_name: Seq<char>,
    pub series: Seq<SeriesView>,
}

impl View for ChartPlan {
    type V = ChartView;

    open spec fn view(&self) -> ChartView {
        ChartView {
            duration_ns: self.duration_ns,
            label: self.label@,
            title: self.title@,
            y_axis_title: self.y_axis_title@,
            file_name: self.file_name@,
            series: self.series@.map_values(|x: Series| x@),
        }
    }
}

/// Width of a rendered chart, in pixels.
pub const IMAGE_WIDTH: usize = 800;

/// Height of a rendered chart, in pixels.
pub const IMAGE_HEIGHT: usize = 300;

/// The chart title for a duration label.
pub open spec fn title_of(label: Seq<char>) -> Seq<char> {
    "Error for sleep time of "@ + label
}

/// The value axis title: errors are shown in milliseconds.
pub open spec fn y_axis_title() -> Seq<char> {
    "Error in ms"@
}

/// The image file name for a duration label.
pub open spec fn file_name_of(label: Seq<char>) -> Seq<char> {
    "duration_"@ + label + ".png"@
}

/// The series of mechanism `m` in the chart of duration `t`.
pub open spec fn series_of(s: Seq<RecordView>, t: i64, m: Seq<char>) -> SeriesView {
    SeriesView { name: m, errors_ns: errors_of(partition(s, m, t)) }
}

/// The chart of duration `t`, labelled `label`, with one series for each
/// mechanism of `ms` in that order.
pub open spec fn chart_of(s: Seq<RecordView>, t: i64, label: Seq<char>, ms: Seq<Seq<char>>) -> ChartView {
    ChartView {
        duration_ns: t,
        label,
        title: title_of(label),
        y_axis_title: y_axis_title(),
        file_name: file_name_of(label),
        series: ms.map_values(|m: Seq<char>| series_of(s, t, m)),
    }
}

/// Lays out the chart of duration `duration_ns` under the display label
/// `label`: one series per mechanism, in the order given, each holding the
/// errors of that mechanism's records at this duration.
pub fn build_chart(
    records: &Vec<Record>,
    duration_ns: i64,
    label: &str,
    mechanisms: &Vec<String>,
) -> (r: ChartPlan)
    requires
        all_wf(views(records@)),
    ensures
        r@ == chart_of(views(records@), duration_ns, label@, texts(mechanisms@)),
{
    let ghost s = views(records@);
    let ghost ms = texts(mechanisms@);
    let mut series: Vec<Series> = Vec::new();
    let mut j: usize = 0;
    while j < mechanisms.len()
        invariant
            j <= mechanisms@.len(),
            s == views(records@),
            ms == texts(mechanisms@),
            all_wf(s),
            series@.len() == j,
            forall|q: int|
                0 <= q < j ==> (#[trigger] series@[q])@ == series_of(s, duration_ns, ms[q]),
        decreases mechanisms@.len() - j,
    {
        let name = mechanisms[j].clone();
        let part = get_records(records, name.as_str(), duration_ns);
        proof {
            lemma_partition_wf(s, name@, duration_ns);
        }
        let errors_ns = error_series(&part);
        series.push(Series { name, errors_ns });
        j = j + 1;
    }
    let mut title = String::from_str("Error for sleep time of ");
    title.append(label);
    let mut file_name = String::from_str("duration_");
    file_name.append(label);
    file_name.append(".png");
    let r = ChartPlan {
        duration_ns,
        label: String::from_str(label),
        title,
        y_axis_title: String::from_str("Error in ms"),
        file_name,
        series,
    };
    assert(r@.series =~= ms.map_values(|m: Seq<char>| series_of(s, duration_ns, m)));
    r
}

/// The display label that humanize-duration gives a nanosecond count.
pub uninterp spec fn human_label(ns: int) -> Seq<char>;

/// Relies on humanize_duration's `DurationExt::human` with `Truncate::Nano`
/// on a `std::time::Duration`, as displayed: the label depends on the
/// nanosecond count alone.
#[verifier::external_body]
fn humanize_ns(ns: u64) -> (r: String)
    ensures
        r@ == human_label(ns as int),
{
    format!("{}", std::time::Duration::from_nanos(ns).human(humanize_duration::Truncate::Nano))
}

/// The first pair of equal strings: the smallest `j` that repeats an
/// earlier string, with the first `i` that it repeats.
pub open spec fn first_repeat(k: Seq<Seq<char>>, i: int, j: int) -> bool {
    &&& 0 <= i < j < k.len()
    &&& k[i] == k[j]
    &&& forall|a: int, b: int| 0 <= a < b < j ==> k[a] != k[b]
    &&& forall|a: int| 0 <= a < i ==> k[a] != k[j]
}

/// No two strings of `k` are equal.
pub open spec fn all_distinct(k: Seq<Seq<char>>) -> bool {
    forall|a: int, b: int| 0 <= a < b < k.len() ==> k[a] != k[b]
}

/// Finds the first repeated string, if any.
pub fn first_repeated(k: &Vec<String>) -> (r: Option<(usize, usize)>)
    ensures
        r is None <==> all_distinct(texts(k@)),
        r matches Some((i, j)) ==> first_repeat(texts(k@), i as int, j as int),
{
    let ghost t = texts(k@);
    let mut j: usize = 0;
    while j < k.len()
        invariant
            j <= k@.len(),
            t == texts(k@),
            forall|a: int, b: int| 0 <= a < b < j ==> t[a] != t[b],
        decreases k@.len() - j,
    {
        let mut i: usize = 0;
        while i < j
            invariant
                i <= j < k@.len(),
                t == texts(k@),
                forall|a: int, b: int| 0 <= a < b < j ==> t[a] != t[b],
                forall|a: int| 0 <= a < i ==> t[a] != t[j as int],
            decreases j - i,
        {
            assert(t[i as int] == k@[i as int]@ && t[j as int] == k@[j as int]@);
            if k[i] == k[j] {
                return Some((i, j));
            }
            i = i + 1;
        }
        j = j + 1;
    }
    None
}

/// Two requested durations share a display label and would be written to
/// the same file.
#[derive(Debug, Clone, Copy, PartialEq, Eq, Structural)]
pub enum PlanError {
    LabelClash { first_ns: i64, second_ns: i64 },
}

/// The display labels of the durations `ks`.
pub open spec fn labels_of(ks: Seq<i64>) -> Seq<Seq<char>> {
    ks.map_values(|t: i64| human_label(t as int))
}

/// A label fixes the file name.
pub proof fn lemma_file_name_injective(a: Seq<char>, b: Seq<char>)
    requires
        file_name_of(a) == file_name_of(b),
    ensures
        a == b,
{
    let p = "duration_"@;
    let q = ".png"@;
    assert(file_name_of(a).len() == p.len() + a.len() + q.len());
    assert forall|k: int| 0 <= k < a.len() implies a[k] == b[k] by {
        assert(file_name_of(a)[p.len() + k] == a[k]);
        assert(file_name_of(b)[p.len() + k] == b[k]);
    }
    assert(a =~= b);
}

/// Lays out one chart per distinct requested duration, ascending, each
/// with one series per distinct mechanism of the whole input, in
/// lexicographic order. Two durations whose labels coincide would
/// overwrite each other's file: that is reported instead.
pub fn plan_charts(records: &Vec<Record>) -> (r: Result<Vec<ChartPlan>, PlanError>)
    requires
        all_wf(views(records@)),
    ensures
        ({
            let s = views(records@);
            let ks = duration_keys(s);
            let ms = mechanism_keys(s);
            &&& r is Ok <==> all_distinct(labels_of(ks))
            &&& r matches Ok(v) ==> {
                &&& v@.len() == ks.len()
                &&& forall|i: int|
                    0 <= i < v@.len() ==> (#[trigger] v@[i])@ == chart_of(
                        s,
                        ks[i],
                        human_label(ks[i] as int),
                        ms,
                    )
            }
            &&& r matches Err(PlanError::LabelClash { first_ns, second_ns }) ==> exists|i: int, j: int|
                first_repeat(labels_of(ks), i, j) && ks[i] == first_ns && ks[j] == second_ns
        }),
        views(records@).len() == 0 ==> (r matches Ok(v) && v@.len() == 0),
        r matches Ok(v) ==> {
            &&& v@.len() == target_set(views(records@)).len()
            &&& forall|i: int|
                0 <= i < v@.len() ==> target_set(views(records@)).contains(#[trigger] v@[i].duration_ns)
            &&& forall|i: int, j: int|
                0 <= i < j < v@.len() ==> v@[i].file_name@ != v@[j].file_name@
            &&& forall|i: int|
                0 <= i < v@.len() ==> (#[trigger] v@[i]).series@.len() == mechanism_set(
                    views(records@),
                ).len()
        },
{
    let ghost s = views(records@);
    let ks = unique_durations(records);
    let ms = unique_mechanisms(records);
    proof {
        if s.len() == 0 && ks@.len() > 0 {
            assert(ks@.to_set().contains(ks@[0]));
        }
    }
    let ghost kl = labels_of(ks@);
    let mut labels: Vec<String> = Vec::new();
    let mut i: usize = 0;
    while i < ks.len()
        invariant
            i <= ks@.len(),
            s == views(records@),
            all_wf(s),
            ks@.to_set() == target_set(s),
            kl == labels_of(ks@),
            labels@.len() == i,
            forall|q: int| 0 <= q < i ==> (#[trigger] labels@[q])@ == kl[q],
        decreases ks@.len() - i,
    {
        proof {
            assert(ks@.to_set().contains(ks@[i as int]));
            let w = choose|w: int| 0 <= w < s.len() && s[w].target_ns == ks@[i as int];
            assert(s[w].wf());
        }
        labels.push(humanize_ns(ks[i] as u64));
        i = i + 1;
    }
    assert(texts(labels@) =~= kl);
    if let Some((a, b)) = first_repeated(&labels) {
        return Err(PlanError::LabelClash { first_ns: ks[a], second_ns: ks[b] });
    }
    let mut plans: Vec<ChartPlan> = Vec::new();
    let mut i: usize = 0;
    while i < ks.len()
        invariant
            i <= ks@.len(),
            s == views(records@),
            all_wf(s),
            ks@ == duration_keys(s),
            texts(ms@) == mechanism_keys(s),
            kl == labels_of(ks@),
            labels@.len() == ks@.len(),
            forall|q: int| 0 <= q < ks@.len() ==> (#[trigger] labels@[q])@ == kl[q],
            plans@.len() == i,
            forall|q: int|
                0 <= q < i ==> (#[trigger] plans@[q])@ == chart_of(
                    s,
                    ks@[q],
                    human_label(ks@[q] as int),
                    texts(ms@),
                ),
        decreases ks@.len() - i,
    {
        assert(labels@[i as int]@ == kl[i as int]);
        let plan = build_chart(records, ks[i], labels[i].as_str(), &ms);
        plans.push(plan);
        i = i + 1;
    }
    proof {
        let v = plans@;
        assert(ks@.no_duplicates());
        ks@.unique_seq_to_set();
        crate::keys::lemma_text_order();
        assert(texts(ms@).no_duplicates()) by {
            assert forall|a: int, b: int|
                0 <= a < texts(ms@).len() && 0 <= b < texts(ms@).len() && a != b implies texts(
                ms@,
            )[a] != texts(ms@)[b] by {
                if a < b {
                    assert(text_lt(texts(ms@)[a], texts(ms@)[b]));
                } else {
                    assert(text_lt(texts(ms@)[b], texts(ms@)[a]));
                }
            }
        }
        texts(ms@).unique_seq_to_set();
        assert(v.len() == target_set(s).len());
        assert forall|i: int| 0 <= i < v.len() implies (#[trigger] v[i]).series@.len() == mechanism_set(s).len() by {
            assert(v[i]@.series.len() == texts(ms@).len());
        }
        assert forall|i: int| 0 <= i < v.len() implies target_set(s).contains(#[trigger] v[i].duration_ns) by {
            assert(ks@.to_set().contains(ks@[i]));
        }
        assert forall|i: int, j: int| 0 <= i < j < v.len() implies v[i].file_name@ != v[j].file_name@ by {
            if v[i].file_name@ == v[j].file_name@ {
                lemma_file_name_injective(kl[i], kl[j]);
            }
        }
    }
    Ok(plans)
}

} // verus!
