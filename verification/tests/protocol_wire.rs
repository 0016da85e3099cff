use semantic_file_finder::indexing::total_size;
use semantic_file_finder::protocol::{
    action_request, embedding_init_request, encode_request, indexer_init_request, parse_request, read_reply,
    WorkerError,
};
use semantic_file_finder::text::entry_accepts;
use serde_json::Value;

fn object(pairs: Vec<(&str, Value)>) -> String {
    let mut m = serde_json::Map::new();
    for (k, v) in pairs {
        m.insert(k.to_string(), v);
    }
    Value::Object(m).to_string()
}

fn text(s: &str) -> Value {
    Value::String(s.to_string())
}

#[test]
fn requests_are_written_as_serde_json_writes_them() {
    assert_eq!(
        embedding_init_request("models"),
        object(vec![("action", text("init")), ("model_path", text("models"))])
    );
    assert_eq!(indexer_init_request("index"), object(vec![("action", text("init")), ("index_dir", text("index"))]));
    let odd = "C:\\docs\\\"quoted\" 文件\n.txt";
    assert_eq!(parse_request(odd), object(vec![("action", text("parse")), ("file_path", text(odd))]));
    for a in ["stats", "save", "reset", "quit"] {
        assert_eq!(action_request(a), object(vec![("action", text(a))]));
    }
    let texts = vec!["a \"b\"".to_string(), "c".to_string(), "语义".to_string()];
    assert_eq!(
        encode_request(&texts, true),
        object(vec![
            ("action", text("encode")),
            ("texts", Value::Array(texts.iter().map(|t| text(t)).collect())),
            ("is_query", Value::Bool(true)),
        ])
    );
    assert_eq!(encode_request(&vec!["q".to_string()], false), "{\"action\":\"encode\",\"is_query\":false,\"texts\":[\"q\"]}");
    assert_eq!(encode_request(&Vec::new(), false), "{\"action\":\"encode\",\"is_query\":false,\"texts\":[]}");
}

#[test]
fn replies_are_read_field_by_field() {
    let line = "{\"status\":\"initialized\",\"content\":\"hello\",\"indexed_files\":42,\
        \"results\":[{\"path\":\"/a\",\"score\":0.75},{\"score\":1},{\"path\":\"/c\"},{\"path\":\"/d\",\"score\":\"x\"}]}\n";
    let r = read_reply(line).unwrap();
    assert_eq!(r.status.as_deref(), Some("initialized"));
    assert_eq!(r.content.as_deref(), Some("hello"));
    assert_eq!(r.indexed_files, Some(42));
    assert_eq!(
        r.hits,
        vec![
            (Some("/a".to_string()), Some("0.75".to_string())),
            (None, Some("1".to_string())),
            (Some("/c".to_string()), None),
            (Some("/d".to_string()), None),
        ]
    );
    let bare = read_reply("{\"status\":3}").unwrap();
    assert_eq!(bare.status, None);
    assert_eq!(bare.content, None);
    assert_eq!(bare.indexed_files, None);
    assert!(bare.hits.is_empty());
    let not_array = read_reply("{\"results\":{\"path\":\"/a\"}}").unwrap();
    assert!(not_array.hits.is_empty());
}

#[test]
fn score_text_reads_back_as_the_same_number() {
    let line = "{\"results\":[{\"path\":\"/a\",\"score\":0.1234567890123},{\"path\":\"/b\",\"score\":-2.5e-8}]}";
    let r = read_reply(line).unwrap();
    let parsed: Value = serde_json::from_str(line).unwrap();
    for (i, (_, score)) in r.hits.iter().enumerate() {
        let back: f64 = score.as_ref().unwrap().parse().unwrap();
        assert_eq!(back, parsed["results"][i]["score"].as_f64().unwrap());
    }
}

#[test]
fn blank_and_broken_replies_are_refused() {
    assert!(matches!(read_reply(" \n"), Err(WorkerError::EmptyResponse)));
    match read_reply("not json\n") {
        Err(e) => assert_eq!(e.message(), "Failed to parse response: not json\n"),
        Ok(_) => panic!("accepted a broken reply"),
    }
}

#[test]
fn ascii_type_names_ignore_case() {
    assert!(entry_accepts("PDF", "pdf"));
    assert!(entry_accepts(" .Md ", "md"));
}

#[test]
fn sizes_add_up_unless_they_overflow() {
    assert_eq!(total_size(&vec![1, 2, 3]), Some(6));
    assert_eq!(total_size(&Vec::new()), Some(0));
    assert_eq!(total_size(&vec![u64::MAX, 0]), Some(u64::MAX));
    assert_eq!(total_size(&vec![u64::MAX, 1]), None);
}
