use findreplace::{Collection, FindReplaceContext, FindReplaceError, Schema};

fn schema(name: &str, fields: &[&str]) -> Schema {
    Schema::new(
        name.to_string(),
        fields.iter().map(|f| f.to_string()).collect(),
    )
}

fn strings(texts: &[&str]) -> Vec<String> {
    texts.iter().map(|t| t.to_string()).collect()
}

#[test]
fn findreplace() {
    let mut col = Collection::new();
    assert!(col.add_schema(1, schema("Basic", &["Front", "Back"])));
    assert!(col.add_schema(2, schema("Cloze", &["Text"])));
    assert!(col.add_record(1, 1, strings(&["one aaa", "two aaa"])));
    assert!(col.add_record(2, 2, strings(&["three aaa"])));

    let nids: Vec<u64> = vec![1, 2];
    let cnt = col
        .find_and_replace(FindReplaceContext::new(nids.clone(), "(?i)AAA", "BBB", None).unwrap())
        .unwrap();
    assert_eq!(cnt, 2);

    let note = col.get_record(1).unwrap();
    assert_eq!(&note.fields, &["one BBB", "two BBB"]);
    let note2 = col.get_record(2).unwrap();
    assert_eq!(&note2.fields, &["three BBB"]);

    let mut names: Vec<String> = Vec::new();
    for id in [1u64, 2] {
        for n in col.get_schema(id).unwrap().field_names() {
            names.push(n.clone());
        }
    }
    names.sort();
    names.dedup();
    assert_eq!(
        names,
        vec!["Back".to_string(), "Front".into(), "Text".into()]
    );

    let cnt = col
        .find_and_replace(
            FindReplaceContext::new(nids.clone(), "BBB", "ccc", Some("Front".into())).unwrap(),
        )
        .unwrap();
    // Still 2: the record whose schema lacks the field falls back to all
    // fields instead of being skipped.
    assert_eq!(cnt, 2);

    let note = col.get_record(1).unwrap();
    assert_eq!(&note.fields, &["one ccc", "two BBB"]);
    let note2 = col.get_record(2).unwrap();
    assert_eq!(&note2.fields, &["three ccc"]);
}

#[test]
fn empty_batch_changes_nothing() {
    let mut col = Collection::new();
    assert!(col.add_schema(1, schema("Basic", &["Front", "Back"])));
    assert!(col.add_record(1, 1, strings(&["one aaa", "two aaa"])));

    let cnt = col
        .find_and_replace(FindReplaceContext::new(Vec::new(), "aaa", "BBB", None).unwrap())
        .unwrap();
    assert_eq!(cnt, 0);
    assert_eq!(&col.get_record(1).unwrap().fields, &["one aaa", "two aaa"]);
}

#[test]
fn unmatched_pattern_writes_nothing() {
    let mut col = Collection::new();
    assert!(col.add_schema(1, schema("Basic", &["Front", "Back"])));
    assert!(col.add_record(1, 1, strings(&["one aaa", "two aaa"])));

    let cnt = col
        .find_and_replace(FindReplaceContext::new(vec![1], "zzz", "BBB", None).unwrap())
        .unwrap();
    assert_eq!(cnt, 0);
    assert_eq!(&col.get_record(1).unwrap().fields, &["one aaa", "two aaa"]);
}

#[test]
fn rerun_is_idempotent() {
    let mut col = Collection::new();
    assert!(col.add_schema(1, schema("Basic", &["Front", "Back"])));
    assert!(col.add_record(1, 1, strings(&["one aaa", "two aaa"])));

    let cnt = col
        .find_and_replace(FindReplaceContext::new(vec![1], "aaa", "BBB", None).unwrap())
        .unwrap();
    assert_eq!(cnt, 1);
    assert_eq!(&col.get_record(1).unwrap().fields, &["one BBB", "two BBB"]);

    // The pattern no longer matches the substituted text: nothing changes.
    let cnt = col
        .find_and_replace(FindReplaceContext::new(vec![1], "aaa", "BBB", None).unwrap())
        .unwrap();
    assert_eq!(cnt, 0);
    assert_eq!(&col.get_record(1).unwrap().fields, &["one BBB", "two BBB"]);
}

#[test]
fn field_fallback_across_schemas() {
    let mut col = Collection::new();
    assert!(col.add_schema(1, schema("Basic", &["Front", "Back"])));
    assert!(col.add_schema(2, schema("Cloze", &["Text"])));
    assert!(col.add_record(1, 1, strings(&["aaa", "aaa"])));
    assert!(col.add_record(2, 2, strings(&["aaa"])));

    let cnt = col
        .find_and_replace(
            FindReplaceContext::new(vec![1, 2], "aaa", "bbb", Some("Front".into())).unwrap(),
        )
        .unwrap();
    assert_eq!(cnt, 2);
    // The schema with the named field substitutes only that field...
    assert_eq!(&col.get_record(1).unwrap().fields, &["bbb", "aaa"]);
    // ...the schema without it substitutes every field.
    assert_eq!(&col.get_record(2).unwrap().fields, &["bbb"]);
}

#[test]
fn missing_schema_aborts_batch() {
    let mut col = Collection::new();
    assert!(col.add_schema(1, schema("Basic", &["Front"])));
    assert!(col.add_record(1, 1, strings(&["aaa"])));
    // Record 2 names a schema the store never saw.
    assert!(col.add_record(2, 7, strings(&["aaa"])));

    let r = col.find_and_replace(FindReplaceContext::new(vec![1, 2], "aaa", "bbb", None).unwrap());
    assert_eq!(r, Err(FindReplaceError::MissingSchema));
    // No record updated earlier in the batch stays changed.
    assert_eq!(&col.get_record(1).unwrap().fields, &["aaa"]);
    assert_eq!(&col.get_record(2).unwrap().fields, &["aaa"]);
}

#[test]
fn missing_record_aborts_batch() {
    let mut col = Collection::new();
    assert!(col.add_schema(1, schema("Basic", &["Front"])));
    assert!(col.add_record(1, 1, strings(&["aaa"])));

    let r = col.find_and_replace(FindReplaceContext::new(vec![1, 9], "aaa", "bbb", None).unwrap());
    assert_eq!(r, Err(FindReplaceError::MissingRecord));
    assert_eq!(&col.get_record(1).unwrap().fields, &["aaa"]);
    assert!(col.get_record(9).is_none());
}

#[test]
fn invalid_pattern_fails_fast() {
    let r = FindReplaceContext::new(vec![1], "(", "x", None);
    assert!(matches!(r, Err(FindReplaceError::InvalidPattern)));
}

#[test]
fn identity_replacement_not_counted() {
    let mut col = Collection::new();
    assert!(col.add_schema(1, schema("Basic", &["Front"])));
    assert!(col.add_record(1, 1, strings(&["aaa"])));

    // The pattern matches, but the text comes out byte-identical: the
    // record is not counted and not written.
    let cnt = col
        .find_and_replace(FindReplaceContext::new(vec![1], "(?i)AAA", "aaa", None).unwrap())
        .unwrap();
    assert_eq!(cnt, 0);
    assert_eq!(&col.get_record(1).unwrap().fields, &["aaa"]);
}

#[test]
fn interleaved_schemas_all_processed() {
    let mut col = Collection::new();
    assert!(col.add_schema(1, schema("Basic", &["Front"])));
    assert!(col.add_schema(2, schema("Cloze", &["Text"])));
    assert!(col.add_record(1, 1, strings(&["x aaa"])));
    assert!(col.add_record(2, 2, strings(&["y aaa"])));
    assert!(col.add_record(3, 1, strings(&["z aaa"])));

    // Ids arrive with their schemas interleaved; every record is still
    // substituted exactly once.
    let cnt = col
        .find_and_replace(FindReplaceContext::new(vec![1, 2, 3], "aaa", "b", None).unwrap())
        .unwrap();
    assert_eq!(cnt, 3);
    assert_eq!(&col.get_record(1).unwrap().fields, &["x b"]);
    assert_eq!(&col.get_record(2).unwrap().fields, &["y b"]);
    assert_eq!(&col.get_record(3).unwrap().fields, &["z b"]);
}

#[test]
fn apply_reports_change() {
    let ctx = FindReplaceContext::new(Vec::new(), "a+", "b", None).unwrap();
    let (new_text, changed) = ctx.apply("caat");
    assert_eq!(new_text, "cbt");
    assert!(changed);

    let (same_text, changed) = ctx.apply("xyz");
    assert_eq!(same_text, "xyz");
    assert!(!changed);
}

#[test]
fn replacement_template_groups() {
    let mut col = Collection::new();
    assert!(col.add_schema(1, schema("Basic", &["Front"])));
    assert!(col.add_record(1, 1, strings(&["hello world"])));

    // Back-reference syntax follows the underlying pattern engine.
    let cnt = col
        .find_and_replace(
            FindReplaceContext::new(vec![1], r"(\w+) (\w+)", "$2 $1", None).unwrap(),
        )
        .unwrap();
    assert_eq!(cnt, 1);
    assert_eq!(&col.get_record(1).unwrap().fields, &["world hello"]);
}
