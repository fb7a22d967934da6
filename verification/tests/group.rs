use image::{GrayImage, ImageFormat, Luma};
use imgdupes::bits::Bits;
use imgdupes::group::{group_duplicates, Group, GroupMap};
use imgdupes::hash::{dhash_image, ImageHash, Skip};
use imgdupes::pipeline::{successes, summarize};
use std::io::Cursor;

fn hashed(bits: &[bool], path: &str) -> ImageHash<String> {
    ImageHash::new(Bits::from_bools(bits), path.to_string())
}

fn listed(map: GroupMap<String>) -> Vec<(String, Vec<String>)> {
    map.into_groups().into_iter().map(|Group { digest, paths }| (digest, paths)).collect()
}

fn png(value: fn(u32, u32) -> u8) -> Vec<u8> {
    let image = GrayImage::from_fn(8, 8, |x, y| Luma([value(x, y)]));
    let mut bytes = Vec::new();
    image.write_to(&mut Cursor::new(&mut bytes), ImageFormat::Png).unwrap();
    bytes
}

fn rising(x: u32, _y: u32) -> u8 {
    (x * 10) as u8
}

fn solid(_x: u32, _y: u32) -> u8 {
    90
}

#[test]
fn new_map_is_empty() {
    let map: GroupMap<String> = GroupMap::new();
    assert_eq!(map.total(), 0);
    assert!(listed(map).is_empty());
}

#[test]
fn insert_opens_a_group_then_appends() {
    let mut map = GroupMap::new();
    map.insert("ab".to_string(), "one".to_string());
    map.insert("cd".to_string(), "two".to_string());
    map.insert("ab".to_string(), "three".to_string());
    assert_eq!(map.total(), 3);
    assert_eq!(
        listed(map),
        vec![
            ("ab".to_string(), vec!["one".to_string(), "three".to_string()]),
            ("cd".to_string(), vec!["two".to_string()]),
        ]
    );
}

#[test]
fn collect_files_each_image_under_its_digest() {
    let images = vec![
        hashed(&[true, false, true, false], "a"),
        hashed(&[false, false, false, true], "b"),
        hashed(&[true, false, true, false], "c"),
    ];
    let map = GroupMap::collect(images);
    assert_eq!(map.total(), 3);
    assert_eq!(
        listed(map),
        vec![
            ("a".to_string(), vec!["a".to_string(), "c".to_string()]),
            ("1".to_string(), vec!["b".to_string()]),
        ]
    );
}

#[test]
fn retain_duplicates_drops_single_images() {
    let mut map = GroupMap::new();
    map.insert("ab".to_string(), "one".to_string());
    map.insert("cd".to_string(), "two".to_string());
    map.insert("ef".to_string(), "three".to_string());
    map.insert("cd".to_string(), "four".to_string());
    map.retain_duplicates();
    assert_eq!(listed(map), vec![("cd".to_string(), vec!["two".to_string(), "four".to_string()])]);
}

#[test]
fn retain_duplicates_keeps_groups_of_any_size_above_one() {
    let mut map = GroupMap::new();
    for path in ["p", "q", "r", "s"] {
        map.insert("00".to_string(), path.to_string());
    }
    map.insert("ff".to_string(), "t".to_string());
    map.insert("ff".to_string(), "u".to_string());
    map.retain_duplicates();
    assert_eq!(
        listed(map),
        vec![
            (
                "00".to_string(),
                vec!["p".to_string(), "q".to_string(), "r".to_string(), "s".to_string()]
            ),
            ("ff".to_string(), vec!["t".to_string(), "u".to_string()]),
        ]
    );
}

#[test]
fn group_duplicates_of_nothing_is_empty() {
    let (map, total) = group_duplicates(Vec::<ImageHash<String>>::new());
    assert_eq!(total, 0);
    assert!(listed(map).is_empty());
}

#[test]
fn group_duplicates_drops_a_digest_with_one_path() {
    let (map, total) = group_duplicates(vec![hashed(&[true, true, true, true], "only")]);
    assert_eq!(total, 1);
    assert!(listed(map).is_empty());
}

#[test]
fn group_duplicates_counts_every_image() {
    let images = vec![
        hashed(&[true, true, false, false], "a"),
        hashed(&[true, true, false, false], "b"),
        hashed(&[false, true, false, false], "c"),
        hashed(&[true, true, false, false], "d"),
        hashed(&[false, false, false, false], "e"),
    ];
    let (map, total) = group_duplicates(images);
    assert_eq!(total, 5);
    assert_eq!(
        listed(map),
        vec![("c".to_string(), vec!["a".to_string(), "b".to_string(), "d".to_string()])]
    );
}

#[test]
fn group_duplicates_keeps_paths_in_order_of_arrival() {
    let images = vec![
        hashed(&[true], "z"),
        hashed(&[true], "m"),
        hashed(&[true], "a"),
    ];
    let (map, _) = group_duplicates(images);
    assert_eq!(
        listed(map),
        vec![("8".to_string(), vec!["z".to_string(), "m".to_string(), "a".to_string()])]
    );
}

#[test]
fn group_duplicates_goes_by_digest_alone() {
    // hashes of different lengths that share a digest fall into one group
    let (map, total) = group_duplicates(vec![hashed(&[true], "short"), hashed(&[true, false], "long")]);
    assert_eq!(total, 2);
    assert_eq!(listed(map), vec![("8".to_string(), vec!["short".to_string(), "long".to_string()])]);
}

#[test]
fn successes_keeps_hashes_in_order_and_drops_skips() {
    let outcomes = vec![
        Ok(hashed(&[true], "a")),
        Err(Skip::Unsupported),
        Ok(hashed(&[false], "b")),
        Err(Skip::DecodeError("bad".to_string())),
    ];
    let kept = successes(outcomes);
    let paths: Vec<&str> = kept.iter().map(|image| image.path.as_str()).collect();
    assert_eq!(paths, vec!["a", "b"]);
}

#[test]
fn summarize_of_no_files() {
    let (map, total) = summarize(Vec::<Result<ImageHash<String>, Skip>>::new());
    assert_eq!(total, 0);
    assert!(listed(map).is_empty());
}

#[test]
fn summarize_of_skips_alone() {
    let outcomes: Vec<Result<ImageHash<String>, Skip>> =
        vec![Err(Skip::Unsupported), Err(Skip::DecodeError("bad".to_string()))];
    let (map, total) = summarize(outcomes);
    assert_eq!(total, 0);
    assert!(listed(map).is_empty());
}

#[test]
fn two_equal_images_and_a_solid_one() {
    let a = png(rising);
    let b = a.clone();
    let c = png(solid);
    let outcomes = vec![
        dhash_image("A_path.png".to_string(), &a, 8),
        dhash_image("B_path.png".to_string(), &b, 8),
        dhash_image("C_path.png".to_string(), &c, 8),
    ];
    let (map, total) = summarize(outcomes);
    assert_eq!(total, 3);
    assert_eq!(
        listed(map),
        vec![(
            "fefefefefefefefe".to_string(),
            vec!["A_path.png".to_string(), "B_path.png".to_string()]
        )]
    );
}

#[test]
fn a_text_file_and_a_broken_image_enter_no_group() {
    let a = png(rising);
    let outcomes = vec![
        dhash_image("a.png".to_string(), &a, 8),
        dhash_image("notes.txt".to_string(), b"words", 8),
        dhash_image("broken.png".to_string(), &a[..a.len() / 2], 8),
        dhash_image("b.png".to_string(), &a, 8),
    ];
    let diagnostics = outcomes
        .iter()
        .filter(|outcome| matches!(outcome, Err(skip) if skip.diagnostic().is_some()))
        .count();
    assert_eq!(diagnostics, 1);
    let (map, total) = summarize(outcomes);
    assert_eq!(total, 2);
    assert_eq!(
        listed(map),
        vec![("fefefefefefefefe".to_string(), vec!["a.png".to_string(), "b.png".to_string()])]
    );
}
