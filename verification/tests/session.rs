use firefox_rs::error::Error;
use firefox_rs::json::{parse_json, Json, Member};
use firefox_rs::recovery::{Entry, Tab as TabState, TopLevel, Window};
use firefox_rs::tab::{extract_tabs, show, Tab};
use firefox_rs::text::{contains, same_text, starts_with, to_decimal};

fn entry(title: &str, url: &str) -> Entry {
    Entry { title: title.to_string(), url: url.to_string() }
}

fn state(entries: Vec<Entry>, index: usize, image: Option<&str>) -> TabState {
    TabState { entries, index, image: image.map(str::to_string) }
}

fn shape_failure(text: &str) {
    match TopLevel::from_slice(text.as_bytes()) {
        Err(Error::MalformedSession(cause)) => {
            assert_eq!(cause, "document does not have the structure of a session", "{text}")
        }
        other => panic!("{text}: {other:?}"),
    }
}

#[test]
fn extraction_selects_the_shown_entry() {
    let document = TopLevel {
        windows: vec![Window { tabs: vec![state(vec![entry("A", "a"), entry("B", "b")], 2, None)] }],
    };
    let tabs = extract_tabs(document).unwrap();
    assert_eq!(tabs.len(), 1);
    assert_eq!(tabs[0].title, "B");
    assert_eq!(tabs[0].url, "b");
    assert_eq!(tabs[0].icon, None);
}

#[test]
fn extraction_keeps_window_then_tab_order() {
    let document = TopLevel {
        windows: vec![
            Window {
                tabs: vec![
                    state(vec![entry("A", "a"), entry("B", "b"), entry("C", "c")], 1, Some("i1")),
                    state(vec![entry("D", "d"), entry("E", "e"), entry("F", "f")], 3, None),
                ],
            },
            Window { tabs: vec![] },
            Window { tabs: vec![state(vec![entry("G", "g"), entry("H", "h"), entry("I", "i")], 2, Some("i3"))] },
        ],
    };
    let tabs = extract_tabs(document).unwrap();
    let got: Vec<(&str, &str, Option<&str>)> =
        tabs.iter().map(|t| (t.title.as_str(), t.url.as_str(), t.icon.as_deref())).collect();
    assert_eq!(got, vec![("A", "a", Some("i1")), ("F", "f", None), ("H", "h", Some("i3"))]);
    assert!(extract_tabs(TopLevel { windows: vec![] }).unwrap().is_empty());
}

#[test]
fn index_out_of_range_is_a_malformed_session() {
    for index in [0usize, 3, 4, usize::MAX] {
        let document = TopLevel {
            windows: vec![
                Window { tabs: vec![state(vec![entry("A", "a")], 1, None)] },
                Window { tabs: vec![state(vec![entry("A", "a"), entry("B", "b")], index, None)] },
            ],
        };
        match extract_tabs(document) {
            Err(Error::MalformedSession(cause)) => {
                assert_eq!(cause, "selected history entry is out of range")
            }
            other => panic!("{index}: {other:?}"),
        }
        assert!(show(state(vec![entry("A", "a"), entry("B", "b")], index, None)).is_none());
    }
    assert!(show(state(vec![], 0, None)).is_none());
    assert!(show(state(vec![], 1, None)).is_none());
}

#[test]
fn into_entry_returns_the_selected_entry() {
    let first = state(vec![entry("A", "a"), entry("B", "b"), entry("C", "c")], 1, None).into_entry();
    assert_eq!((first.title.as_str(), first.url.as_str()), ("A", "a"));
    let middle = state(vec![entry("A", "a"), entry("B", "b"), entry("C", "c")], 2, None).into_entry();
    assert_eq!((middle.title.as_str(), middle.url.as_str()), ("B", "b"));
    let last = state(vec![entry("A", "a"), entry("B", "b"), entry("C", "c")], 3, None).into_entry();
    assert_eq!((last.title.as_str(), last.url.as_str()), ("C", "c"));
}

#[test]
fn tab_from_entry_has_no_icon() {
    let tab = Tab::from(entry("A", "a"));
    assert_eq!((tab.title.as_str(), tab.url.as_str(), tab.icon), ("A", "a", None));
}

#[test]
fn document_is_read_from_json_text() {
    let text = r#" { "version": ["sessionrestore", 1], "windows": [
        { "tabs": [
            { "entries": [ {"title": "A", "url": "a", "ID": 5}, {"url": "b", "title": "B"} ],
              "index": 2, "image": null, "hidden": false },
            { "entries": [], "index": 0, "image": "data:icon" },
            { "index": 18446744073709551615, "entries": [ {"title": "é", "url": "u"} ] }
          ], "selected": 1 },
        { "tabs": [] } ],
      "selectedWindow": 1 } "#;
    let document = TopLevel::from_slice(text.as_bytes()).unwrap();
    assert_eq!(document.windows.len(), 2);
    assert_eq!(document.windows[1].tabs.len(), 0);
    let tabs = &document.windows[0].tabs;
    assert_eq!(tabs.len(), 3);
    assert_eq!(tabs[0].entries.len(), 2);
    assert_eq!(tabs[0].entries[0].title, "A");
    assert_eq!(tabs[0].entries[0].url, "a");
    assert_eq!(tabs[0].entries[1].title, "B");
    assert_eq!(tabs[0].entries[1].url, "b");
    assert_eq!(tabs[0].index, 2);
    assert_eq!(tabs[0].image, None);
    assert_eq!(tabs[1].entries.len(), 0);
    assert_eq!(tabs[1].index, 0);
    assert_eq!(tabs[1].image.as_deref(), Some("data:icon"));
    assert_eq!(tabs[2].index, usize::MAX);
    assert_eq!(tabs[2].image, None);
    assert_eq!(tabs[2].entries[0].title, "\u{e9}");
}

#[test]
fn missing_or_mistyped_members_fail() {
    shape_failure("{}");
    shape_failure("[]");
    shape_failure("null");
    shape_failure(r#"{"windows": {}}"#);
    shape_failure(r#"{"windows": [[]]}"#);
    shape_failure(r#"{"windows": [{}]}"#);
    shape_failure(r#"{"windows": [{"tabs": 1}]}"#);
    shape_failure(r#"{"windows": [{"tabs": [{"index": 1}]}]}"#);
    shape_failure(r#"{"windows": [{"tabs": [{"entries": []}]}]}"#);
    shape_failure(r#"{"windows": [{"tabs": [{"entries": [], "index": -1}]}]}"#);
    shape_failure(r#"{"windows": [{"tabs": [{"entries": [], "index": 1.0}]}]}"#);
    shape_failure(r#"{"windows": [{"tabs": [{"entries": [], "index": "1"}]}]}"#);
    shape_failure(r#"{"windows": [{"tabs": [{"entries": [], "index": 18446744073709551616}]}]}"#);
    shape_failure(r#"{"windows": [{"tabs": [{"entries": [], "index": 1, "image": 3}]}]}"#);
    shape_failure(r#"{"windows": [{"tabs": [{"entries": [{"title": "A"}], "index": 1}]}]}"#);
    shape_failure(r#"{"windows": [{"tabs": [{"entries": [{"url": "a"}], "index": 1}]}]}"#);
    shape_failure(r#"{"windows": [{"tabs": [{"entries": [{"title": "A", "url": null}], "index": 1}]}]}"#);
    shape_failure(r#"{"windows": [{"tabs": [{"entries": [{"title": "A", "url": "a"}, 7], "index": 1}]}]}"#);
    shape_failure(r#"{"Windows": []}"#);
}

#[test]
fn text_that_is_not_json_fails_with_the_parser_s_text() {
    match TopLevel::from_slice(b"{\"windows\": [") {
        Err(Error::MalformedSession(cause)) => {
            assert_eq!(cause, "EOF while parsing a list at line 1 column 13")
        }
        other => panic!("{other:?}"),
    }
    assert!(matches!(TopLevel::from_slice(b""), Err(Error::MalformedSession(_))));
    assert!(matches!(TopLevel::from_slice(b"{\"windows\": []} x"), Err(Error::MalformedSession(_))));
    assert!(matches!(TopLevel::from_slice(&[0xff, 0xfe]), Err(Error::MalformedSession(_))));
}

#[test]
fn document_is_read_from_a_json_value() {
    let value = Json::Object(vec![
        Member { name: "other".to_string(), value: Json::Bool(true) },
        Member {
            name: "windows".to_string(),
            value: Json::Array(vec![Json::Object(vec![Member {
                name: "tabs".to_string(),
                value: Json::Array(vec![Json::Object(vec![
                    Member { name: "index".to_string(), value: Json::Number(Some(1)) },
                    Member { name: "image".to_string(), value: Json::Text("icon".to_string()) },
                    Member {
                        name: "entries".to_string(),
                        value: Json::Array(vec![Json::Object(vec![
                            Member { name: "url".to_string(), value: Json::Text("a".to_string()) },
                            Member { name: "title".to_string(), value: Json::Text("A".to_string()) },
                        ])]),
                    },
                ])]),
            }])]),
        },
    ]);
    let document = TopLevel::from_json(&value).unwrap();
    let tab = &document.windows[0].tabs[0];
    assert_eq!(tab.index, 1);
    assert_eq!(tab.image.as_deref(), Some("icon"));
    assert_eq!(tab.entries[0].title, "A");
    assert_eq!(tab.entries[0].url, "a");
    let no_number = Json::Object(vec![Member {
        name: "windows".to_string(),
        value: Json::Array(vec![Json::Object(vec![Member {
            name: "tabs".to_string(),
            value: Json::Array(vec![Json::Object(vec![
                Member { name: "index".to_string(), value: Json::Number(None) },
                Member { name: "entries".to_string(), value: Json::Array(vec![]) },
            ])]),
        }])]),
    }]);
    assert!(matches!(TopLevel::from_json(&no_number), Err(Error::MalformedSession(_))));
}

#[test]
fn json_values_are_parsed() {
    let value = parse_json(br#"{"b": [null, true, 7, -7, 1.5, "s"], "a": {}}"#).unwrap();
    assert!(value.member("c").is_none());
    assert!(value.as_array().is_none());
    assert!(matches!(value.member("a"), Some(Json::Object(members)) if members.is_empty()));
    let items = value.member("b").unwrap().as_array().unwrap();
    assert_eq!(items.len(), 6);
    assert!(items[0].is_null());
    assert!(matches!(items[1], Json::Bool(true)));
    assert_eq!(items[2].as_unsigned(), Some(7));
    assert!(matches!(items[3], Json::Number(None)));
    assert!(matches!(items[4], Json::Number(None)));
    assert_eq!(items[5].as_text().map(String::as_str), Some("s"));
    assert_eq!(items[5].as_unsigned(), None);
    assert!(items[5].member("s").is_none());
    assert!(matches!(parse_json(b"[1,"), Err(Error::MalformedSession(_))));
}

#[test]
fn members_outside_the_schema_are_still_parsed() {
    let ok = r#"{"windows": [], "extra": {"a": [1, 2, {"b": null}]}}"#;
    assert!(TopLevel::from_slice(ok.as_bytes()).unwrap().windows.is_empty());
    let deep = format!(r#"{{"windows": [], "extra": {}{}}}"#, "[".repeat(200), "]".repeat(200));
    assert!(matches!(TopLevel::from_slice(deep.as_bytes()), Err(Error::MalformedSession(_))));
    let huge = r#"{"windows": [], "extra": 1e999}"#;
    assert!(matches!(TopLevel::from_slice(huge.as_bytes()), Err(Error::MalformedSession(_))));
    let twice = r#"{"windows": 3, "windows": []}"#;
    assert!(TopLevel::from_slice(twice.as_bytes()).unwrap().windows.is_empty());
    let twice_wrong_last = r#"{"windows": [], "windows": 3}"#;
    shape_failure(twice_wrong_last);
}

#[test]
fn text_helpers() {
    assert!(contains("abc.default-release", "default"));
    assert!(contains("default", "default"));
    assert!(contains("x", ""));
    assert!(contains("", ""));
    assert!(!contains("defaul", "default"));
    assert!(!contains("", "default"));
    assert!(contains("dedefault", "default"));
    assert!(starts_with("recovery.jsonlz4", "recovery.js"));
    assert!(starts_with("recovery.js", "recovery.js"));
    assert!(!starts_with("recovery.j", "recovery.js"));
    assert!(!starts_with("xrecovery.js", "recovery.js"));
    assert!(same_text("\u{e9}a", "\u{e9}a"));
    assert!(!same_text("\u{e9}a", "\u{e9}b"));
    assert!(!same_text("a", "ab"));
    assert_eq!(to_decimal(0), "0");
    assert_eq!(to_decimal(9), "9");
    assert_eq!(to_decimal(10), "10");
    assert_eq!(to_decimal(907), "907");
    assert_eq!(to_decimal(usize::MAX), usize::MAX.to_string());
}
