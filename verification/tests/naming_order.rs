use pahe_pipeline::naming::{segment_file_name, build_concat_list, sort_names, output_paths, work_dir_name, str_lex_le};

#[test]
fn segment_names_are_zero_padded() {
    assert_eq!(segment_file_name(0), "seg_000000.ts");
    assert_eq!(segment_file_name(7), "seg_000007.ts");
    assert_eq!(segment_file_name(42), "seg_000042.ts");
    assert_eq!(segment_file_name(999999), "seg_999999.ts");
    assert_eq!(segment_file_name(1234567), "seg_1234567.ts");
}

#[test]
fn name_order_follows_index_order() {
    for (i, j) in [(0usize, 1usize), (1, 10), (9, 10), (99, 100), (5, 999999)] {
        let a = segment_file_name(i);
        let b = segment_file_name(j);
        assert!(str_lex_le(&a, &b));
        assert_ne!(a, b);
    }
}

#[test]
fn concat_list_is_invariant_under_completion_order() {
    let one_order = vec![
        "seg_000002.ts".to_string(),
        "playlist.m3u8".to_string(),
        "seg_000000.ts".to_string(),
        "file.list".to_string(),
        "seg_000001.ts".to_string(),
    ];
    let other_order = vec![
        "file.list".to_string(),
        "seg_000001.ts".to_string(),
        "seg_000000.ts".to_string(),
        "seg_000002.ts".to_string(),
        "playlist.m3u8".to_string(),
    ];
    let a = build_concat_list(&one_order);
    let b = build_concat_list(&other_order);
    assert_eq!(a, b);
    assert_eq!(a, vec!["seg_000000.ts", "seg_000001.ts", "seg_000002.ts"]);
}

#[test]
fn encrypted_names_point_at_their_decrypted_twins() {
    let names = vec![
        "seg_000001.encrypted".to_string(),
        "seg_000000.encrypted".to_string(),
        "playlist.m3u8".to_string(),
    ];
    let listed = build_concat_list(&names);
    assert_eq!(listed, vec!["seg_000000", "seg_000001"]);
}

#[test]
fn sorting_is_lexical_and_keeps_every_name() {
    let names = vec![
        "b".to_string(),
        "a".to_string(),
        "ab".to_string(),
        "a".to_string(),
    ];
    let sorted = sort_names(names);
    assert_eq!(sorted, vec!["a", "a", "ab", "b"]);
}

#[test]
fn output_paths_are_deterministic() {
    let (dir, file) = output_paths("My Show", 3);
    assert_eq!(dir, "My Show");
    assert_eq!(file, "3.mp4");
    let (dir2, file2) = output_paths("My Show", 3);
    assert_eq!((dir, file), (dir2, file2));
}

#[test]
fn sanitizing_strips_path_separators() {
    let (dir, _) = output_paths("a/b\\c", 1);
    assert!(!dir.contains('/'));
    assert!(!dir.contains('\\'));
}

#[test]
fn work_dir_name_carries_the_episode() {
    assert_eq!(work_dir_name(12), "12_work");
}

#[test]
fn the_list_file_names_each_segment_once() {
    let names = vec!["seg_000000.ts".to_string(), "seg_000001.ts".to_string()];
    let text = pahe_pipeline::naming::concat_list_file_text("/tmp/w/", &names);
    assert_eq!(text, "file '/tmp/w/seg_000000.ts'\nfile '/tmp/w/seg_000001.ts'\n");
}
