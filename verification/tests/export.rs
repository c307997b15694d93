//! How an archive's entries become an export's files.

use slack2buzz::export::{
    day_files_of_listing, detect_prefix, dirs_of_listing, Export, ZipIndex,
};

fn names(list: &[&str]) -> Vec<String> {
    list.iter().map(|s| s.to_string()).collect()
}

#[test]
fn no_prefix_when_manifests_are_at_the_root() {
    let names = vec![
        "users.json".to_string(),
        "channels.json".to_string(),
        "general/2024-01-01.json".to_string(),
    ];
    assert_eq!(detect_prefix(&names), "");
}

#[test]
fn single_wrapper_directory_is_stripped() {
    let names = vec![
        "export/users.json".to_string(),
        "export/channels.json".to_string(),
        "export/general/2024-01-01.json".to_string(),
    ];
    assert_eq!(detect_prefix(&names), "export/");
}

#[test]
fn a_lone_channel_directory_is_not_mistaken_for_a_wrapper() {
    // No users.json inside it, so `general` is content, not a wrapper.
    let names = vec!["general/2024-01-01.json".to_string()];
    assert_eq!(detect_prefix(&names), "");
}

#[test]
fn several_top_level_directories_means_no_wrapper() {
    let names = vec!["a/users.json".to_string(), "b/users.json".to_string()];
    assert_eq!(detect_prefix(&names), "");
}

#[test]
fn an_index_is_the_same_with_and_without_a_wrapper() {
    let flat = ZipIndex::of_archive(&names(&[
        "users.json",
        "general/2024-03-05.json",
        "general/2024-03-04.json",
        "random/2024-03-04.json",
    ]));
    let wrapped = ZipIndex::of_archive(&names(&[
        "acme/users.json",
        "acme/general/2024-03-05.json",
        "acme/general/2024-03-04.json",
        "acme/random/2024-03-04.json",
    ]));
    assert_eq!(flat.prefix, "");
    assert_eq!(wrapped.prefix, "acme/");
    assert_eq!(
        flat.channel_day_files("general"),
        vec!["general/2024-03-04.json", "general/2024-03-05.json"]
    );
    assert_eq!(
        flat.channel_day_files("general"),
        wrapped.channel_day_files("general")
    );
    assert_eq!(flat.top_level_dirs(), vec!["general", "random"]);
    assert_eq!(flat.top_level_dirs(), wrapped.top_level_dirs());
    assert_eq!(
        wrapped.full_name("general/2024-03-04.json"),
        "acme/general/2024-03-04.json"
    );
}

#[test]
fn day_files_of_a_directory_are_its_json_files_in_order() {
    assert_eq!(
        day_files_of_listing(
            "general",
            &names(&["2024-03-05.json", "notes.txt", "2024-03-04.json"])
        ),
        vec!["general/2024-03-04.json", "general/2024-03-05.json"]
    );
}

fn with_emoji(emoji: Option<&str>) -> Export {
    Export {
        users: None,
        channels: None,
        groups: None,
        mpims: None,
        dms: None,
        emoji: emoji.map(|e| e.as_bytes().to_vec()),
        dirs: vec![],
        days: vec![],
    }
}

#[test]
fn custom_emoji_are_listed_by_name() {
    let export = with_emoji(Some(r#"{"zap":"https://e.test/z","ack":"alias:zap"}"#));
    assert_eq!(
        export.emoji_table().unwrap(),
        vec![
            ("ack".to_string(), "alias:zap".to_string()),
            ("zap".to_string(), "https://e.test/z".to_string()),
        ]
    );
    assert!(with_emoji(None).emoji_table().unwrap().is_empty());
}

#[test]
fn an_emoji_table_that_does_not_parse_is_an_error() {
    let err = with_emoji(Some("[1, 2]")).emoji_table().unwrap_err();
    assert_eq!(err.to_string(), "parsing emoji.json from the export");
}

#[test]
fn a_zip_lists_the_days_that_a_directory_lists() {
    let index = ZipIndex::of_archive(&names(&[
        "users.json",
        "general/2024-03-05.json",
        "general/notes.txt",
        "general/2024-03-04.json",
        "general/deep/2024-03-04.json",
        "generally/2024-03-01.json",
    ]));
    assert_eq!(
        index.channel_day_files("general"),
        day_files_of_listing(
            "general",
            &names(&["notes.txt", "2024-03-04.json", "2024-03-05.json"])
        )
    );
}

#[test]
fn directories_are_listed_in_order_and_once() {
    assert_eq!(
        dirs_of_listing(&names(&["random", "general", "random", "D024BE7LH"])),
        vec!["D024BE7LH", "general", "random"]
    );
    let index = ZipIndex::of_archive(&names(&[
        "acme/",
        "acme/users.json",
        "acme/random/",
        "acme/random/2024-03-04.json",
        "acme/general/2024-03-04.json",
        "acme/empty/",
    ]));
    assert_eq!(
        index.top_level_dirs(),
        dirs_of_listing(&names(&["random", "general"]))
    );
    assert_eq!(
        index.channel_day_files("random"),
        day_files_of_listing("random", &names(&["2024-03-04.json"]))
    );
}
