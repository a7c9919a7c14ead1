use neat::duplicates::{
    find_duplicates, find_similar_images, similarity_percent, DuplicateGroup, FileData,
    HashedImage, SimilarGroup,
};
use neat::scanner::FileInfo;

fn make_file_info(path: &str, size: u64) -> FileInfo {
    let name = path.rsplit('/').next().unwrap_or(path).to_string();
    let extension = name.rsplit_once('.').map(|(_, e)| e.to_lowercase());
    FileInfo { path: path.to_string(), name, extension, size, modified: 0, created: None }
}

fn entry(path: &str, content: &str) -> FileData {
    let bytes = content.as_bytes().to_vec();
    FileData { info: make_file_info(path, bytes.len() as u64), content: bytes }
}

#[test]
fn duplicates_test_wasted_space_single_file() {
    let group = DuplicateGroup {
        hash: "abc".to_string(),
        files: vec![make_file_info("/a.txt", 100)],
        size: 100,
    };
    assert_eq!(group.wasted_space(), 0);
}

#[test]
fn duplicates_test_wasted_space_two_files() {
    let group = DuplicateGroup {
        hash: "abc".to_string(),
        files: vec![make_file_info("/a.txt", 100), make_file_info("/b.txt", 100)],
        size: 100,
    };
    assert_eq!(group.wasted_space(), 100);
}

#[test]
fn duplicates_test_wasted_space_three_files() {
    let group = DuplicateGroup {
        hash: "abc".to_string(),
        files: vec![
            make_file_info("/a.txt", 500),
            make_file_info("/b.txt", 500),
            make_file_info("/c.txt", 500),
        ],
        size: 500,
    };
    assert_eq!(group.wasted_space(), 1000);
}

#[test]
fn duplicates_test_find_duplicates_empty() {
    let entries: Vec<FileData> = vec![];
    let result = find_duplicates(&entries);
    assert!(result.is_empty());
}

#[test]
fn test_find_duplicates_no_duplicates() {
    let entries = vec![entry("/d/a.txt", "content A"), entry("/d/b.txt", "content B")];
    let result = find_duplicates(&entries);
    assert!(result.is_empty());
}

#[test]
fn test_find_duplicates_with_duplicates() {
    let entries = vec![entry("/d/a.txt", "same content"), entry("/d/b.txt", "same content")];
    let result = find_duplicates(&entries);
    assert_eq!(result.len(), 1);
    assert_eq!(result[0].files.len(), 2);
}

#[test]
fn test_find_duplicates_empty_files_skipped() {
    let entries = vec![entry("/d/empty1.txt", ""), entry("/d/empty2.txt", "")];
    let result = find_duplicates(&entries);
    assert!(result.is_empty());
}

#[test]
fn test_find_duplicates_scenario_two_of_three() {
    let entries = vec![
        entry("/dir/a.txt", "hello"),
        entry("/dir/b.txt", "hello"),
        entry("/dir/c.txt", "world"),
    ];
    let result = find_duplicates(&entries);
    assert_eq!(result.len(), 1);
    assert_eq!(result[0].files.len(), 2);
    assert_eq!(result[0].size, 5);
    assert_eq!(result[0].wasted_space(), 5);
    let paths: Vec<&str> = result[0].files.iter().map(|f| f.path.as_str()).collect();
    assert!(paths.contains(&"/dir/a.txt"));
    assert!(paths.contains(&"/dir/b.txt"));
    assert!(!paths.contains(&"/dir/c.txt"));
}

#[test]
fn test_find_duplicates_same_size_different_content() {
    let entries = vec![entry("/d/a.bin", "abcde"), entry("/d/b.bin", "abcdf")];
    let result = find_duplicates(&entries);
    assert!(result.is_empty());
}

#[test]
fn test_find_duplicates_group_hash_is_hex() {
    let entries = vec![entry("/d/a.txt", "hello world"), entry("/d/b.txt", "hello world")];
    let result = find_duplicates(&entries);
    assert_eq!(result.len(), 1);
    assert_eq!(result[0].hash.len(), 16);
    assert!(result[0].hash.chars().all(|c| c.is_ascii_hexdigit()));
}

fn image(path: &str, hash: Vec<u8>) -> HashedImage {
    HashedImage { info: make_file_info(path, 10), hash }
}

#[test]
fn test_find_similar_images_groups_close_hashes() {
    let images = vec![
        image("/p/a.jpg", vec![0b1111_0000, 0, 0, 0]),
        image("/p/b.jpg", vec![0b1111_0001, 0, 0, 0]),
        image("/p/c.jpg", vec![0b0000_1111, 0xff, 0xff, 0xff]),
    ];
    let groups: Vec<SimilarGroup> = find_similar_images(&images, 2);
    assert_eq!(groups.len(), 1);
    assert_eq!(groups[0].representative.path, "/p/a.jpg");
    assert_eq!(groups[0].similar.len(), 1);
    assert_eq!(groups[0].similar[0].0.path, "/p/b.jpg");
    assert_eq!(groups[0].similar[0].1, 1);
}

#[test]
fn test_find_similar_images_none_within_threshold() {
    let images = vec![
        image("/p/a.jpg", vec![0x00, 0x00]),
        image("/p/b.jpg", vec![0xff, 0xff]),
    ];
    let groups = find_similar_images(&images, 3);
    assert!(groups.is_empty());
}

#[test]
fn test_similar_space_sums_sizes() {
    let group = SimilarGroup {
        representative: make_file_info("/p/a.jpg", 10),
        similar: vec![(make_file_info("/p/b.jpg", 30), 1), (make_file_info("/p/c.jpg", 12), 2)],
    };
    assert_eq!(group.similar_space(), 42);
}

#[test]
fn test_similarity_percent() {
    assert_eq!(similarity_percent(0), 100);
    assert_eq!(similarity_percent(128), 50);
    assert_eq!(similarity_percent(256), 0);
    assert_eq!(similarity_percent(10_000), 0);
}

#[test]
fn test_find_similar_images_each_image_at_most_once() {
    let images = vec![
        image("/p/a.jpg", vec![0x00, 0x00]),
        image("/p/b.jpg", vec![0x01, 0x00]),
        image("/p/c.jpg", vec![0x00, 0x01]),
    ];
    // all three lie within the threshold of each other: one group,
    // the first image as representative, the other two as members
    let groups = find_similar_images(&images, 8);
    assert_eq!(groups.len(), 1);
    assert_eq!(groups[0].representative.path, "/p/a.jpg");
    assert_eq!(groups[0].similar.len(), 2);
    assert_eq!(groups[0].similar[0].0.path, "/p/b.jpg");
    assert_eq!(groups[0].similar[1].0.path, "/p/c.jpg");
}

#[test]
fn test_find_similar_images_single_image_no_group() {
    let images = vec![image("/p/a.jpg", vec![0x00, 0x00])];
    assert!(find_similar_images(&images, 256).is_empty());
}

#[test]
fn test_find_duplicates_one_group_per_content() {
    // two content classes, each with two copies: exactly two groups
    let entries = vec![
        entry("/d/a1.txt", "alpha"),
        entry("/d/b1.txt", "beta!"),
        entry("/d/a2.txt", "alpha"),
        entry("/d/b2.txt", "beta!"),
    ];
    let result = find_duplicates(&entries);
    assert_eq!(result.len(), 2);
    let all_paths: Vec<&str> =
        result.iter().flat_map(|g| g.files.iter().map(|f| f.path.as_str())).collect();
    // no file appears in two groups
    let mut deduped = all_paths.clone();
    deduped.sort();
    deduped.dedup();
    assert_eq!(all_paths.len(), deduped.len());
}
