//! The boots of a server, from what the log store answers.

use red::mc::boots::{boot_id, boots_from_loki, Boot, LokiStream};
use serde_json::Value;

const PAYLOAD: &str = r#"{
  "data": {
    "resultType": "streams",
    "result": [
      {
        "stream": {
          "pod": "mc-bolty-59bd4dcd55-l4cxd",
          "filename": "/var/log/pods/mc_mc-bolty-59bd4dcd55-l4cxd_uid/minecraft-server/1.log"
        },
        "values": [
          ["1720730460000000000", "later line"],
          ["1720730100000000000", "earlier line"]
        ]
      },
      {
        "stream": {
          "pod": "mc-bolty-6c9f7d-abcde",
          "filename": "/var/log/pods/mc_mc-bolty-6c9f7d-abcde_uid/minecraft-server/0.log"
        },
        "values": [
          ["1720740000000000000", "boot2 a"],
          ["1720740100000000000", "boot2 b"],
          ["1720740200000000000", "boot2 c"]
        ]
      }
    ]
  }
}"#;

fn label(stream: &Value, name: &str) -> String {
    stream["stream"][name].as_str().unwrap_or("").to_string()
}

fn streams(body: &str) -> Vec<LokiStream> {
    let parsed: Value = serde_json::from_str(body).unwrap();
    parsed["data"]["result"]
        .as_array()
        .unwrap()
        .iter()
        .map(|s| LokiStream {
            pod: label(s, "pod"),
            filename: label(s, "filename"),
            values: s["values"]
                .as_array()
                .unwrap()
                .iter()
                .map(|v| {
                    v.as_array()
                        .unwrap()
                        .iter()
                        .map(|part| part.as_str().map(|text| text.to_string()))
                        .collect()
                })
                .collect(),
        })
        .collect()
}

fn stream(pod: &str, filename: &str, values: &[(&str, &str)]) -> LokiStream {
    LokiStream {
        pod: pod.to_string(),
        filename: filename.to_string(),
        values: values
            .iter()
            .map(|(ts, line)| vec![Some(ts.to_string()), Some(line.to_string())])
            .collect(),
    }
}

fn ids(boots: &[Boot]) -> Vec<&str> {
    boots.iter().map(|b| b.id.as_str()).collect()
}

#[test]
fn groups_by_boot_sorts_newest_first_and_tails() {
    let boots = boots_from_loki(streams(PAYLOAD), 10, 2);
    assert_eq!(boots.len(), 2);

    // Newest boot (higher end_ms) comes first.
    let newest = &boots[0];
    assert_eq!(newest.id, "mc-bolty-6c9f7d-abcde#0");
    assert_eq!(newest.pod, "mc-bolty-6c9f7d-abcde");
    // Tailed to the last 2 lines, ascending; "boot2 a" dropped.
    assert_eq!(newest.lines, vec!["boot2 b", "boot2 c"]);
    assert_eq!(newest.start_ms, 1_720_740_100_000);
    assert_eq!(newest.end_ms, 1_720_740_200_000);

    // Older boot: values sorted ascending, ns -> ms.
    let older = &boots[1];
    assert_eq!(older.id, "mc-bolty-59bd4dcd55-l4cxd#1");
    assert_eq!(older.lines, vec!["earlier line", "later line"]);
    assert_eq!(older.start_ms, 1_720_730_100_000);
    assert_eq!(older.end_ms, 1_720_730_460_000);
}

#[test]
fn respects_max_boots() {
    let boots = boots_from_loki(streams(PAYLOAD), 1, 500);
    assert_eq!(boots.len(), 1);
    assert_eq!(boots[0].id, "mc-bolty-6c9f7d-abcde#0");
}

#[test]
fn boot_id_falls_back_to_filename_when_unparseable() {
    assert_eq!(
        boot_id("p", "/var/log/pods/x/minecraft-server/3.log"),
        "p#3"
    );
    assert_eq!(boot_id("p", "weird-name"), "weird-name");
    assert_eq!(boot_id("p", "/a/b/notanumber.log"), "/a/b/notanumber.log");
}

#[test]
fn empty_result_yields_no_boots() {
    let boots = boots_from_loki(streams(r#"{"data":{"result":[]}}"#), 10, 500);
    assert!(boots.is_empty());
}

#[test]
fn boot_id_edge_cases() {
    assert_eq!(boot_id("p", ".log"), ".log");
    assert_eq!(boot_id("p", "12.log"), "p#12");
    assert_eq!(boot_id("p", "x/007.log"), "p#007");
    assert_eq!(boot_id("p", "x/3.log/"), "x/3.log/");
    assert_eq!(boot_id("p", "x/3a.log"), "x/3a.log");
    assert_eq!(boot_id("", "x/3.log"), "#3");
    assert_eq!(boot_id("p", ""), "");
}

#[test]
fn streams_of_one_file_are_one_boot() {
    let boots = boots_from_loki(
        vec![
            stream("", "d/0.log", &[("3000000", "c")]),
            stream("other", "d/1.log", &[("2000000", "x")]),
            stream("pod", "d/0.log", &[("1000000", "a"), ("2000000", "b")]),
        ],
        10,
        500,
    );
    assert_eq!(ids(&boots), vec!["pod#0", "other#1"]);
    assert_eq!(boots[0].lines, vec!["a", "b", "c"]);
    assert_eq!((boots[0].start_ms, boots[0].end_ms), (1, 3));
}

#[test]
fn lines_of_one_time_keep_their_order() {
    let boots = boots_from_loki(
        vec![stream("p", "0.log", &[("5", "x"), ("5", "y"), ("4", "w"), ("5", "z")])],
        10,
        500,
    );
    assert_eq!(boots[0].lines, vec!["w", "x", "y", "z"]);
    assert_eq!(boots[0].end_ms, 0);
}

#[test]
fn boots_of_one_end_come_by_file_name() {
    let boots = boots_from_loki(
        vec![
            stream("p", "2.log", &[("1000000", "b")]),
            stream("p", "1.log", &[("1999999", "a")]),
            stream("p", "3.log", &[("2000000", "c")]),
        ],
        10,
        500,
    );
    assert_eq!(ids(&boots), vec!["p#3", "p#1", "p#2"]);
}

#[test]
fn values_that_are_no_entries_are_left_out() {
    let mut s = stream("p", "0.log", &[("+7", "plus"), ("x", "no"), ("", "no"), ("-1", "no")]);
    s.values.push(vec![None, Some("no".to_string())]);
    s.values.push(vec![Some("8".to_string()), None]);
    s.values.push(vec![Some("9".to_string())]);
    s.values.push(vec![
        Some("10".to_string()),
        Some("kept".to_string()),
        None,
    ]);
    s.values.push(vec![
        Some("18446744073709551616".to_string()),
        Some("too large".to_string()),
    ]);
    let boots = boots_from_loki(vec![s], 10, 500);
    assert_eq!(boots[0].lines, vec!["plus", "kept"]);
}

#[test]
fn a_boot_without_lines_is_none() {
    assert!(boots_from_loki(vec![stream("p", "0.log", &[])], 10, 500).is_empty());
    assert!(boots_from_loki(vec![stream("p", "0.log", &[("1", "a")])], 10, 0).is_empty());
    assert!(boots_from_loki(vec![stream("p", "0.log", &[("1", "a")])], 0, 10).is_empty());
}

#[test]
fn fewer_boots_are_the_first_of_more() {
    let all = boots_from_loki(streams(PAYLOAD), 10, 500);
    for n in 0..4 {
        let few = boots_from_loki(streams(PAYLOAD), n, 500);
        assert_eq!(ids(&few), ids(&all)[..n.min(all.len())].to_vec());
    }
}

#[test]
fn fewer_lines_are_the_last_of_more() {
    let all = boots_from_loki(streams(PAYLOAD), 10, 500);
    for n in 1..5 {
        let short = boots_from_loki(streams(PAYLOAD), 10, n);
        assert_eq!(ids(&short), ids(&all));
        for (s, l) in short.iter().zip(&all) {
            assert_eq!((&s.pod, s.end_ms), (&l.pod, l.end_ms));
            assert!(s.start_ms >= l.start_ms);
            assert_eq!(s.lines, l.lines[l.lines.len().saturating_sub(n)..].to_vec());
        }
    }
}
