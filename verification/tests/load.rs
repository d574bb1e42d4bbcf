use std::io::Write;

use viz::bytes::{lines, parse_u32, parse_u64, split};
use viz::data::{CallRecord, Loader, LoadError, VizData};

fn make_zip(members: &[(&str, &str)]) -> Vec<u8> {
    let mut zw = zip::ZipWriter::new(std::io::Cursor::new(Vec::new()));
    for (name, content) in members {
        zw.start_file(*name, zip::write::SimpleFileOptions::default())
            .unwrap();
        zw.write_all(content.as_bytes()).unwrap();
    }
    zw.finish().unwrap().into_inner()
}

fn data_member(rows: &[&str]) -> String {
    let mut s = String::from("thread|start|elapsed|method|depth\n");
    for r in rows {
        s.push_str(r);
        s.push('\n');
    }
    s
}

#[test]
fn load_success_commits_header_methods_and_records() {
    let mut rows = Vec::new();
    let mut owned = Vec::new();
    for i in 0..5u32 {
        owned.push(format!("{}|{}|{}|{}|{}", 1 + i % 3, 100 * i, 10 + i, i, i % 2));
    }
    for r in &owned {
        rows.push(r.as_str());
    }
    let bytes = make_zip(&[
        ("header", "3;1;2;\n77777\n"),
        ("methods", "id|name\n1|alpha\n2|beta\n"),
        ("data", &data_member(&rows)),
    ]);
    let mut store = VizData::new(String::from("trace.zip"));
    assert!(store.load(&bytes).is_ok());
    // the thread-id set {1,2,3}, held in ascending order
    assert_eq!(store.thread_ids, vec![1, 2, 3]);
    assert_eq!(store.abs_end_time, 77777);
    assert_eq!(store.calls.len(), 5);
    assert!(store.loaded);
    // every method id that exists in the table resolves to its name
    assert_eq!(store.method_index.get(&1).unwrap(), &b"alpha".to_vec());
    assert_eq!(store.method_index.get(&2).unwrap(), &b"beta".to_vec());
    assert!(store.method_index.get(&3).is_none());
    let c = store.calls[2];
    assert_eq!(c.thread_id, 3);
    assert_eq!(c.start_time, 200);
    assert_eq!(c.elapsed_time, 12);
    assert_eq!(c.method_id, 2);
    assert_eq!(c.depth, 0);
}

#[test]
fn batched_load_counts_grow_and_stay_bounded() {
    // more rows than one batch, loaded through the step interface a
    // concurrent host uses: counts only grow and never pass the total
    let total = 40u32;
    let mut owned = Vec::new();
    for i in 0..total {
        owned.push(format!("1|{}|5|0|0", i));
    }
    let refs: Vec<&str> = owned.iter().map(|s| s.as_str()).collect();
    let member = data_member(&refs);
    let mut store = VizData::new(String::from("t.zip"));
    store.reset_for_load();
    store.commit_header(&vec![1], 1000);
    let mut loader = Loader::new(&member.clone().into_bytes());
    let mut seen = 0usize;
    let mut batches = 0usize;
    loop {
        match loader.next_batch() {
            Ok(Some(batch)) => {
                assert!(batch.len() <= 16);
                store.append_batch(batch);
                assert!(store.calls.len() >= seen);
                assert!(store.calls.len() <= total as usize);
                assert!(!store.loaded);
                seen = store.calls.len();
                batches += 1;
            }
            Ok(None) => break,
            Err(_) => panic!("well-formed rows must load"),
        }
    }
    assert_eq!(batches, 3);
    assert_eq!(store.calls.len(), total as usize);
    assert!(!store.loaded);
    store.finish_load();
    assert!(store.loaded);
}

#[test]
fn malformed_row_aborts_and_keeps_flushed_records() {
    // row index 19 is malformed: the first 16 records were already
    // flushed and must stay visible; the load reports failure
    let mut owned = Vec::new();
    for i in 0..25u32 {
        if i == 19 {
            owned.push(String::from("1|5|oops|1|0"));
        } else {
            owned.push(format!("1|{}|5|1|0", i));
        }
    }
    let refs: Vec<&str> = owned.iter().map(|s| s.as_str()).collect();
    let bytes = make_zip(&[
        ("header", "1\n500\n"),
        ("methods", "id|name\n1|m\n"),
        ("data", &data_member(&refs)),
    ]);
    let mut store = VizData::new(String::from("t.zip"));
    assert_eq!(store.load(&bytes), Err(LoadError::BadDataRow));
    assert_eq!(store.calls.len(), 16);
    assert_eq!(store.calls[15].start_time, 15);
    assert!(!store.loaded);
    assert_eq!(store.thread_ids, vec![1]);
    assert_eq!(store.abs_end_time, 500);
}

#[test]
fn missing_member_is_an_archive_error() {
    let bytes = make_zip(&[("header", "1\n10\n"), ("methods", "x\n")]);
    let mut store = VizData::new(String::from("t.zip"));
    assert_eq!(store.load(&bytes), Err(LoadError::Archive));
    let not_zip = vec![1u8, 2, 3, 4];
    let mut store2 = VizData::new(String::from("t.zip"));
    assert_eq!(store2.load(&not_zip), Err(LoadError::Archive));
}

#[test]
fn malformed_header_leaves_store_untouched() {
    let bytes = make_zip(&[
        ("header", "1;x;3\n10\n"),
        ("methods", "x\n"),
        ("data", "x\n"),
    ]);
    let mut store = VizData::new(String::from("t.zip"));
    assert_eq!(store.load(&bytes), Err(LoadError::BadHeader));
    assert!(store.calls.is_empty());
    assert!(store.thread_ids.is_empty());
    // a header with only one line is also malformed
    let bytes2 = make_zip(&[("header", "1;2\n"), ("methods", "x\n"), ("data", "x\n")]);
    assert_eq!(store.load(&bytes2), Err(LoadError::BadHeader));
}

#[test]
fn malformed_method_row_keeps_header() {
    let bytes = make_zip(&[
        ("header", "2;1\n99\n"),
        ("methods", "id|name\n1|ok\nbroken-row\n"),
        ("data", "x\n1|1|1|1|1\n"),
    ]);
    let mut store = VizData::new(String::from("t.zip"));
    assert_eq!(store.load(&bytes), Err(LoadError::BadMethodRow));
    assert_eq!(store.thread_ids, vec![1, 2]);
    assert_eq!(store.abs_end_time, 99);
    assert!(store.calls.is_empty());
    assert!(!store.loaded);
}

#[test]
fn empty_tokens_in_header_are_ignored_and_ids_deduplicated() {
    let bytes = make_zip(&[
        ("header", ";;7;;7;2;\n1\n"),
        ("methods", "x\n"),
        ("data", "x\n"),
    ]);
    let mut store = VizData::new(String::from("t.zip"));
    assert!(store.load(&bytes).is_ok());
    assert_eq!(store.thread_ids, vec![2, 7]);
}

#[test]
fn from_psv_requires_exactly_five_numeric_fields() {
    assert!(CallRecord::from_psv(&b"1|2|3|4|5".to_vec()).is_ok());
    assert_eq!(
        CallRecord::from_psv(&b"1|2|3|4".to_vec()),
        Err(LoadError::BadDataRow)
    );
    assert_eq!(
        CallRecord::from_psv(&b"1|2|3|4|5|6".to_vec()),
        Err(LoadError::BadDataRow)
    );
    assert_eq!(
        CallRecord::from_psv(&b"1|2|3|4|x".to_vec()),
        Err(LoadError::BadDataRow)
    );
    let c = CallRecord::from_psv(&b"7|100|50|3|2".to_vec()).unwrap();
    assert_eq!(
        (c.thread_id, c.start_time, c.elapsed_time, c.method_id, c.depth),
        (7, 100, 50, 3, 2)
    );
}

#[test]
fn decimal_parsing_hits_the_exact_bounds() {
    assert_eq!(parse_u64(&b"18446744073709551615".to_vec()), Some(u64::MAX));
    assert_eq!(parse_u64(&b"18446744073709551616".to_vec()), None);
    assert_eq!(parse_u64(&b"".to_vec()), None);
    assert_eq!(parse_u64(&b"0007".to_vec()), Some(7));
    assert_eq!(parse_u64(&b"12a".to_vec()), None);
    assert_eq!(parse_u32(&b"4294967295".to_vec()), Some(u32::MAX));
    assert_eq!(parse_u32(&b"4294967296".to_vec()), None);
}

#[test]
fn splitting_and_lines_follow_the_text_format() {
    let parts = split(&b"a|b||c".to_vec(), b'|');
    assert_eq!(parts, vec![b"a".to_vec(), b"b".to_vec(), b"".to_vec(), b"c".to_vec()]);
    assert_eq!(split(&b"".to_vec(), b'|'), vec![b"".to_vec()]);
    let ls = lines(&b"one\r\ntwo\nthree".to_vec());
    assert_eq!(ls, vec![b"one".to_vec(), b"two".to_vec(), b"three".to_vec()]);
    assert_eq!(lines(&b"one\n".to_vec()), vec![b"one".to_vec()]);
    assert_eq!(lines(&b"".to_vec()), Vec::<Vec<u8>>::new());
}
