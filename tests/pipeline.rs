use plot::chart::{
    build_chart, error_series, first_repeated, get_records, plan_charts, ChartPlan,
    IMAGE_HEIGHT, IMAGE_WIDTH,
};
use plot::keys::{unique_durations, unique_mechanisms};
use plot::record::{load_records, records_from_rows, Record, SchemaError};
use plot::text::{parse_ns, same_text, text_less};

fn rec(m: &str, t: i64, a: i64) -> Record {
    Record::new(m.to_string(), t, a)
}

fn sample() -> Vec<Record> {
    vec![rec("A", 1000, 1050), rec("B", 1000, 900), rec("A", 2000, 2100)]
}

fn names(plans: &[ChartPlan]) -> Vec<String> {
    plans.iter().map(|p| p.file_name.clone()).collect()
}

fn series_names(plan: &ChartPlan) -> Vec<String> {
    plan.series.iter().map(|s| s.name.clone()).collect()
}

#[test]
fn keys_of_sample() {
    let records = sample();
    assert_eq!(unique_durations(&records), vec![1000, 2000]);
    assert_eq!(unique_mechanisms(&records), vec!["A".to_string(), "B".to_string()]);
}

#[test]
fn keys_sorted_and_deduplicated() {
    let records = vec![
        rec("sleep", 30, 31),
        rec("spin", 10, 12),
        rec("Sleep", 30, 29),
        rec("sleep", 10, 11),
        rec("spin", 20, 20),
    ];
    assert_eq!(unique_durations(&records), vec![10, 20, 30]);
    assert_eq!(
        unique_mechanisms(&records),
        vec!["Sleep".to_string(), "sleep".to_string(), "spin".to_string()]
    );
}

#[test]
fn keys_of_nothing() {
    let records: Vec<Record> = vec![];
    assert!(unique_durations(&records).is_empty());
    assert!(unique_mechanisms(&records).is_empty());
}

#[test]
fn error_in_milliseconds_for_one_group() {
    let records = sample();
    let part = get_records(&records, "A", 1000);
    assert_eq!(part.len(), 1);
    let errors = error_series(&part);
    assert_eq!(errors, vec![50]);
    let ms: Vec<f64> = errors.iter().map(|e| *e as f64 / 1e6).collect();
    assert_eq!(ms, vec![(1050.0 - 1000.0) / 1e6]);
}

#[test]
fn partition_keeps_input_order() {
    let records = vec![
        rec("A", 5, 9),
        rec("B", 5, 6),
        rec("A", 5, 3),
        rec("A", 7, 7),
        rec("A", 5, 5),
    ];
    let part = get_records(&records, "A", 5);
    let actual: Vec<i64> = part.iter().map(|r| r.actual_ns).collect();
    assert_eq!(actual, vec![9, 3, 5]);
    assert_eq!(error_series(&part), vec![4, -2, 0]);
    assert!(get_records(&records, "a", 5).is_empty());
    assert!(get_records(&records, "B", 7).is_empty());
}

#[test]
fn one_chart_per_duration_with_every_mechanism() {
    let records = sample();
    let plans = plan_charts(&records).unwrap();
    assert_eq!(plans.len(), 2);
    assert_eq!(plans[0].duration_ns, 1000);
    assert_eq!(plans[1].duration_ns, 2000);
    for p in &plans {
        assert_eq!(series_names(p), vec!["A".to_string(), "B".to_string()]);
    }
    assert_eq!(plans[0].series[0].errors_ns, vec![50]);
    assert_eq!(plans[0].series[1].errors_ns, vec![-100]);
    assert_eq!(plans[1].series[0].errors_ns, vec![100]);
    assert!(plans[1].series[1].errors_ns.is_empty());
    let files = names(&plans);
    assert_ne!(files[0], files[1]);
}

#[test]
fn labels_come_from_humanized_durations() {
    let records = vec![rec("A", 1000, 1000), rec("A", 1_500_000, 1_600_000), rec("A", 0, 3)];
    let plans = plan_charts(&records).unwrap();
    assert_eq!(plans[0].label, "");
    assert_eq!(plans[1].label, "1µs");
    assert_eq!(plans[2].label, "1ms 500µs");
    assert_eq!(plans[1].file_name, "duration_1µs.png");
    assert_eq!(plans[1].title, "Error for sleep time of 1µs");
    assert_eq!(plans[1].y_axis_title, "Error in ms");
}

#[test]
fn chart_layout_from_label() {
    let records = sample();
    let mechs = vec!["B".to_string(), "A".to_string(), "C".to_string()];
    let plan = build_chart(&records, 1000, "1µs", &mechs);
    assert_eq!(plan.duration_ns, 1000);
    assert_eq!(plan.label, "1µs");
    assert_eq!(plan.title, "Error for sleep time of 1µs");
    assert_eq!(plan.y_axis_title, "Error in ms");
    assert_eq!(plan.file_name, "duration_1µs.png");
    assert_eq!(series_names(&plan), mechs);
    assert_eq!(plan.series[0].errors_ns, vec![-100]);
    assert_eq!(plan.series[1].errors_ns, vec![50]);
    assert!(plan.series[2].errors_ns.is_empty());
}

#[test]
fn image_size_is_fixed() {
    assert_eq!((IMAGE_WIDTH, IMAGE_HEIGHT), (800, 300));
}

#[test]
fn same_file_names_on_every_run() {
    let records = sample();
    let first = names(&plan_charts(&records).unwrap());
    let second = names(&plan_charts(&records).unwrap());
    assert_eq!(first, second);
}

#[test]
fn row_order_does_not_change_chart_or_series_order() {
    let a = vec![
        rec("B", 2000, 2100),
        rec("A", 1000, 1050),
        rec("C", 1000, 990),
        rec("A", 2000, 2010),
    ];
    let b = vec![
        rec("A", 2000, 2010),
        rec("C", 1000, 990),
        rec("A", 1000, 1050),
        rec("B", 2000, 2100),
    ];
    let pa = plan_charts(&a).unwrap();
    let pb = plan_charts(&b).unwrap();
    assert_eq!(names(&pa), names(&pb));
    let da: Vec<i64> = pa.iter().map(|p| p.duration_ns).collect();
    let db: Vec<i64> = pb.iter().map(|p| p.duration_ns).collect();
    assert_eq!(da, db);
    for (x, y) in pa.iter().zip(pb.iter()) {
        assert_eq!(series_names(x), series_names(y));
    }
}

#[test]
fn no_rows_no_charts() {
    let empty: Vec<Record> = vec![];
    assert!(plan_charts(&empty).unwrap().is_empty());
    assert!(load_records("").unwrap().is_empty());
    let only_header = load_records("sleep_type,target_ns,actual_ns\n").unwrap();
    assert!(only_header.is_empty());
    assert!(plan_charts(&only_header).unwrap().is_empty());
}

#[test]
fn non_numeric_duration_is_a_schema_error() {
    let text = "sleep_type,target_ns,actual_ns\nA,1000,1050\nA,abc,1050\nB,1000,900\n";
    assert_eq!(load_records(text).err(), Some(SchemaError::BadRow { row: 2 }));
    let text = "sleep_type,target_ns,actual_ns\nA,1000,1.5\n";
    assert_eq!(load_records(text).err(), Some(SchemaError::BadRow { row: 1 }));
}

#[test]
fn load_reads_columns_in_any_order() {
    let text = "actual_ns,sleep_type,target_ns\n1050,A,1000\n900,B,1000\n2100,A,2000\n";
    let records = load_records(text).unwrap();
    assert_eq!(records.len(), 3);
    assert_eq!(records[1].sleep_type, "B");
    assert_eq!(records[1].target_ns, 1000);
    assert_eq!(records[1].actual_ns, 900);
    assert_eq!(records[2].target_ns, 2000);
    assert_eq!(records[2].actual_ns, 2100);
}

#[test]
fn load_rejects_bad_header() {
    assert_eq!(
        load_records("sleep_type,target_ns\nA,1000\n").err(),
        Some(SchemaError::BadHeader)
    );
    assert_eq!(
        load_records("mechanism,target_ns,actual_ns\nA,1,2\n").err(),
        Some(SchemaError::BadHeader)
    );
    assert_eq!(
        load_records("sleep_type,target_ns,target_ns\nA,1,2\n").err(),
        Some(SchemaError::BadHeader)
    );
}

#[test]
fn load_rejects_unequal_rows() {
    let text = "sleep_type,target_ns,actual_ns\nA,1000\n";
    assert_eq!(load_records(text).err(), Some(SchemaError::Malformed));
}

#[test]
fn load_rejects_negative_and_oversized_counts() {
    let text = "sleep_type,target_ns,actual_ns\nA,-5,10\n";
    assert_eq!(load_records(text).err(), Some(SchemaError::BadRow { row: 1 }));
    let text = "sleep_type,target_ns,actual_ns\nA,5,99999999999999999999\n";
    assert_eq!(load_records(text).err(), Some(SchemaError::BadRow { row: 1 }));
}

#[test]
fn rows_bind_to_records() {
    let rows = vec![
        vec!["target_ns".to_string(), "actual_ns".to_string(), "sleep_type".to_string()],
        vec!["7".to_string(), "9".to_string(), "x".to_string()],
    ];
    let records = records_from_rows(&rows).unwrap();
    assert_eq!(records.len(), 1);
    assert_eq!(records[0].sleep_type, "x");
    assert_eq!((records[0].target_ns, records[0].actual_ns), (7, 9));
    let short = vec![rows[0].clone(), vec!["7".to_string()]];
    assert_eq!(records_from_rows(&short).err(), Some(SchemaError::BadRow { row: 1 }));
}

#[test]
fn decimal_counts() {
    assert_eq!(parse_ns("0"), Some(0));
    assert_eq!(parse_ns("1050"), Some(1050));
    assert_eq!(parse_ns("9223372036854775807"), Some(i64::MAX));
    assert_eq!(parse_ns("9223372036854775808"), None);
    assert_eq!(parse_ns(""), None);
    assert_eq!(parse_ns("12a"), None);
    assert_eq!(parse_ns(" 12"), None);
}

#[test]
fn text_order_and_equality() {
    assert!(text_less("A", "B"));
    assert!(text_less("B", "a"));
    assert!(text_less("ab", "abc"));
    assert!(!text_less("abc", "ab"));
    assert!(!text_less("same", "same"));
    assert!(same_text("µs", "µs"));
    assert!(!same_text("ab", "abc"));
}

#[test]
fn repeated_labels() {
    let k = vec!["1s".to_string(), "2s".to_string(), "3s".to_string(), "2s".to_string(), "1s".to_string()];
    assert_eq!(first_repeated(&k), Some((1, 3)));
    let k = vec!["1s".to_string(), "2s".to_string()];
    assert_eq!(first_repeated(&k), None);
}

#[test]
fn record_validity() {
    assert!(rec("A", 0, 0).is_valid());
    assert!(!rec("A", -1, 0).is_valid());
    assert!(!rec("A", 1, -1).is_valid());
    let r = rec("A", 3, 4);
    let d = r.duplicate();
    assert_eq!((d.sleep_type.as_str(), d.target_ns, d.actual_ns), ("A", 3, 4));
}
