use breakpoint_player::breakpoint::Breakpoint;
use breakpoint_player::collection::BreakpointCollection;
use breakpoint_player::files::{timepoint_to_parts, OpenError};
use breakpoint_player::savefile::parse_config;

fn marks_of(text: &str) -> Vec<(u64, String)> {
    parse_config(text)
        .unwrap()
        .to_vec()
        .iter()
        .map(|b| (b.timepoint(), b.hint()))
        .collect()
}

fn corrupt(text: &str) -> bool {
    parse_config(text).err() == Some(OpenError::CorruptSaveFile)
}

#[test]
fn saved_set_is_read_in_marker_order() {
    let text = r#"{"breakpoints":[
        {"hint":"late","timepoint":{"secs":90,"nanos":0}},
        {"hint":"early","timepoint":{"secs":10,"nanos":250000000}},
        {"hint":"mid","timepoint":{"secs":60,"nanos":0},"extra":true}
    ],"other":1}"#;
    assert_eq!(
        marks_of(text),
        vec![
            (10_250, "early".to_string()),
            (60_000, "mid".to_string()),
            (90_000, "late".to_string())
        ]
    );
}

#[test]
fn array_forms_are_read_as_serde_reads_them() {
    let text = r#"{"breakpoints":[["a",[3,0]],{"hint":"b","timepoint":[1,1500000000]}]}"#;
    assert_eq!(marks_of(text), vec![(2_500, "b".to_string()), (3_000, "a".to_string())]);
}

#[test]
fn empty_list_reads_as_no_markers() {
    assert!(parse_config(r#"{"breakpoints":[]}"#).unwrap().is_empty());
}

#[test]
fn text_that_is_not_json_is_corrupt() {
    assert!(corrupt("{breakpoints"));
    assert!(corrupt(""));
}

#[test]
fn missing_or_wrong_list_is_corrupt() {
    assert!(corrupt("{}"));
    assert!(corrupt("[1,2]"));
    assert!(corrupt(r#"{"breakpoints":{"a":1}}"#));
    assert!(corrupt(r#"{"breakpoints":null}"#));
}

#[test]
fn bad_record_is_corrupt() {
    let bad = [
        r#"{"breakpoints":[{"timepoint":{"secs":1,"nanos":0}}]}"#,
        r#"{"breakpoints":[{"hint":5,"timepoint":{"secs":1,"nanos":0}}]}"#,
        r#"{"breakpoints":[{"hint":"x","timepoint":{"secs":-1,"nanos":0}}]}"#,
        r#"{"breakpoints":[{"hint":"x","timepoint":{"secs":1.5,"nanos":0}}]}"#,
        r#"{"breakpoints":[{"hint":"x","timepoint":{"secs":1}}]}"#,
        r#"{"breakpoints":[{"hint":"x","timepoint":{"secs":1,"nanos":0,"x":0}}]}"#,
        r#"{"breakpoints":[{"hint":"x","timepoint":{"secs":1,"nanos":4294967296}}]}"#,
        r#"{"breakpoints":[{"hint":"x","timepoint":{"secs":18446744073709551615,"nanos":0}}]}"#,
        r#"{"breakpoints":[{"hint":"x","timepoint":[1]}]}"#,
        r#"{"breakpoints":[["x",[1,0],3]]}"#,
        r#"{"breakpoints":[{"hint":"ok","timepoint":[1,0]}, 7]}"#,
    ];
    for t in bad {
        assert!(corrupt(t), "{t}");
    }
}

#[test]
fn written_set_reads_back() {
    let mut c = BreakpointCollection::new();
    for (ms, h) in [(1_500u64, "a\"b"), (0, ""), (1_500, "a"), (987_654_321, "é")] {
        c.insert(Breakpoint::new(ms, h.to_string()));
    }
    let records: Vec<String> = c
        .to_vec()
        .iter()
        .map(|b| {
            let (secs, nanos) = timepoint_to_parts(b.timepoint());
            format!(
                "{{\"hint\":{},\"timepoint\":{{\"secs\":{secs},\"nanos\":{nanos}}}}}",
                serde_json::to_string(&b.hint()).unwrap()
            )
        })
        .collect();
    let text = format!("{{\"breakpoints\":[{}]}}", records.join(","));
    let back = parse_config(&text).unwrap();
    let a: Vec<(u64, String)> = c.to_vec().iter().map(|b| (b.timepoint(), b.hint())).collect();
    let b: Vec<(u64, String)> = back.to_vec().iter().map(|b| (b.timepoint(), b.hint())).collect();
    assert_eq!(a, b);
}
