use jute::json::{JsonField, JsonValue};
use jute::notebook::{Cell, MultilineString};
use jute::notebook::{decode_notebook, decode_notebook_value, encode_notebook, encode_notebook_value};
use jute::text::parse_json_text;
use jute::Error;

const SAMPLE: &str = r#"
    {
        "metadata": {
            "kernelspec": {
                "name": "python3",
                "display_name": "Python 3"
            },
            "language_info": {
                "name": "python",
                "codemirror_mode": {
                    "name": "ipython",
                    "version": 3
                },
                "file_extension": ".py",
                "mimetype": "text/x-python",
                "pygments_lexer": "ipython3",
                "version": "3.8.5",
                "nbconvert_exporter": "python"
            },
            "orig_nbformat": 4,
            "title": "Example Notebook",
            "authors": [
                {
                    "name": "Alice"
                },
                {
                    "name": "Bob"
                }
            ],
            "custom": "metadata"
        },
        "nbformat_minor": 4,
        "nbformat": 4,
        "cells": [
            {
                "cell_type": "code",
                "id": "cell-1",
                "metadata": {
                    "custom": "metadata"
                },
                "source": "print('Hello, world!')",
                "execution_count": 1,
                "outputs": [
                    {
                        "output_type": "execute_result",
                        "execution_count": 1,
                        "data": {
                            "text/plain": "Hello, world!"
                        },
                        "metadata": {
                            "custom": "metadata"
                        }
                    }
                ]
            }
        ]
    }
"#;

fn bag_get<'a>(bag: &'a [JsonField], key: &str) -> Option<&'a JsonValue> {
    bag.iter().find(|f| f.key == key).map(|f| &f.value)
}

#[test]
fn parse_notebook() {
    let notebook = decode_notebook(SAMPLE).unwrap();
    assert_eq!(
        notebook.metadata.kernelspec.as_ref().unwrap().name,
        "python3"
    );
    assert_eq!(
        notebook.metadata.language_info.as_ref().unwrap().name,
        "python"
    );
    assert_eq!(notebook.metadata.orig_nbformat, Some(4));
    assert_eq!(
        notebook.metadata.title.as_ref().unwrap(),
        "Example Notebook"
    );
    assert_eq!(
        notebook.metadata.authors.as_ref().unwrap()[0]
            .name
            .as_ref()
            .unwrap(),
        "Alice"
    );
    assert_eq!(
        notebook.metadata.authors.as_ref().unwrap()[1]
            .name
            .as_ref()
            .unwrap(),
        "Bob"
    );
    assert_eq!(
        bag_get(&notebook.metadata.other, "custom").unwrap(),
        &JsonValue::Str("metadata".to_string())
    );
    assert_eq!(notebook.nbformat_minor, 4);
    assert_eq!(notebook.nbformat, 4);
    assert_eq!(notebook.cells.len(), 1);
}

#[test]
fn string_to_multiline() {
    let empty = MultilineString::Single("".into()).normalize();
    assert_eq!(empty, MultilineString::Multi(vec![]));

    let single = MultilineString::Single("Hello, world!".into()).normalize();
    assert_eq!(
        single,
        MultilineString::Multi(vec!["Hello, world!".to_string()])
    );

    let multi = MultilineString::Single("Hello,\nworld!".into()).normalize();
    assert_eq!(
        multi,
        MultilineString::Multi(vec!["Hello,\n".to_string(), "world!".to_string()])
    );

    let multi = MultilineString::Single("Hello,\n\nworld!\n".into()).normalize();
    assert_eq!(
        multi,
        MultilineString::Multi(vec![
            "Hello,\n".to_string(),
            "\n".to_string(),
            "world!\n".to_string()
        ])
    );
}

#[test]
fn normalize_is_idempotent_on_samples() {
    for text in ["", "a", "a\nb", "a\n\nb\n", "x\ny\nz"] {
        let once = MultilineString::Single(text.to_string()).normalize();
        let twice = once.normalize();
        assert_eq!(once, twice);
    }
}

#[test]
fn round_trip_preserves_structure() {
    let tree = parse_json_text(SAMPLE).unwrap();
    let notebook = decode_notebook_value(&tree).unwrap();
    match &notebook.cells[0] {
        Cell::Code(c) => {
            assert_eq!(
                bag_get(&c.metadata.other, "custom").unwrap(),
                &JsonValue::Str("metadata".to_string())
            );
        }
        other => panic!("wrong cell variant: {:?}", other),
    }
    let back = encode_notebook_value(&notebook);
    assert_eq!(tree, back);
}

#[test]
fn unknown_root_keys_are_ignored() {
    let text = r#"{"metadata":{},"nbformat_minor":5,"nbformat":4,"cells":[],"extra":1}"#;
    let notebook = decode_notebook(text).unwrap();
    assert_eq!(notebook.nbformat_minor, 5);
    let back = parse_json_text(&encode_notebook(&notebook)).unwrap();
    match back {
        JsonValue::Obj(fields) => assert!(fields.iter().all(|f| f.key != "extra")),
        other => panic!("wrong shape: {:?}", other),
    }
}

#[test]
fn null_optional_decodes_as_absent() {
    let text = r#"{"metadata":{"title":null},"nbformat_minor":5,"nbformat":4,"cells":[]}"#;
    let notebook = decode_notebook(text).unwrap();
    assert!(notebook.metadata.title.is_none());
}

#[test]
fn round_trip_keeps_injected_metadata_keys() {
    let text = r#"{"metadata":{"aaa":1,"zzz":[null,true,"x"],"title":"T"},"nbformat_minor":5,"nbformat":4,"cells":[]}"#;
    let tree = parse_json_text(text).unwrap();
    let notebook = decode_notebook_value(&tree).unwrap();
    assert_eq!(
        bag_get(&notebook.metadata.other, "aaa").unwrap(),
        &JsonValue::Num("1".to_string())
    );
    let back = encode_notebook_value(&notebook);
    assert_eq!(tree, back);
    let printed = encode_notebook(&notebook);
    let reparsed = parse_json_text(&printed).unwrap();
    assert_eq!(tree, reparsed);
}

#[test]
fn unknown_cell_type_fails() {
    let text = r#"{"metadata":{},"nbformat_minor":5,"nbformat":4,"cells":[{"cell_type":"mystery","metadata":{},"source":""}]}"#;
    let err = decode_notebook(text).unwrap_err();
    assert!(matches!(err, Error::Format(_)));
}

#[test]
fn missing_cell_type_fails() {
    let text = r#"{"metadata":{},"nbformat_minor":5,"nbformat":4,"cells":[{"metadata":{},"source":""}]}"#;
    let err = decode_notebook(text).unwrap_err();
    assert!(matches!(err, Error::Format(_)));
}

#[test]
fn unknown_output_type_fails() {
    let text = r#"{"metadata":{},"nbformat_minor":5,"nbformat":4,"cells":[{"cell_type":"code","metadata":{},"source":"","execution_count":null,"outputs":[{"output_type":"mystery"}]}]}"#;
    let err = decode_notebook(text).unwrap_err();
    assert!(matches!(err, Error::Format(_)));
}

#[test]
fn malformed_json_fails() {
    let err = decode_notebook("{not json").unwrap_err();
    assert!(matches!(err, Error::Format(_)));
}

#[test]
fn non_integer_format_version_fails() {
    let text = r#"{"metadata":{},"nbformat_minor":4.5,"nbformat":4,"cells":[]}"#;
    assert!(decode_notebook(text).is_err());
    let text = r#"{"metadata":{},"nbformat_minor":300,"nbformat":4,"cells":[]}"#;
    assert!(decode_notebook(text).is_err());
}

#[test]
fn multiline_source_round_trips() {
    let text = r#"{"metadata":{},"nbformat_minor":5,"nbformat":4,"cells":[{"cell_type":"markdown","metadata":{},"source":["line one\n","line two"]}]}"#;
    let tree = parse_json_text(text).unwrap();
    let notebook = decode_notebook_value(&tree).unwrap();
    match &notebook.cells[0] {
        Cell::Markdown(c) => {
            assert_eq!(
                c.source,
                MultilineString::Multi(vec!["line one\n".to_string(), "line two".to_string()])
            );
        }
        other => panic!("wrong cell variant: {:?}", other),
    }
    assert_eq!(encode_notebook_value(&notebook), tree);
}

#[test]
fn stream_and_error_outputs_round_trip() {
    let text = r#"{"metadata":{},"nbformat_minor":5,"nbformat":4,"cells":[{"cell_type":"code","metadata":{},"source":"x","execution_count":2,"outputs":[{"output_type":"stream","name":"stdout","text":"hi\n"},{"output_type":"error","ename":"ValueError","evalue":"bad","traceback":["t1","t2"],"extra":7}]}]}"#;
    let tree = parse_json_text(text).unwrap();
    let notebook = decode_notebook_value(&tree).unwrap();
    assert_eq!(encode_notebook_value(&notebook), tree);
}

#[test]
fn parsed_tree_is_structural() {
    let tree = parse_json_text(r#"[1,"a",{"b":null},true]"#).unwrap();
    match tree {
        JsonValue::Arr(items) => {
            assert_eq!(items.len(), 4);
            assert_eq!(items[0], JsonValue::Num("1".to_string()));
            assert_eq!(items[1], JsonValue::Str("a".to_string()));
            assert!(matches!(items[3], JsonValue::Bool(true)));
        }
        other => panic!("wrong shape: {:?}", other),
    }
}
