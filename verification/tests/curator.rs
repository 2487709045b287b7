use mover::curator::{curate, entry_kept, entry_video, CurationError, FsEntry};

fn file(name: &str, size: u64) -> FsEntry {
    FsEntry { name: name.to_string(), is_dir: false, size }
}

fn dir(name: &str) -> FsEntry {
    FsEntry { name: name.to_string(), is_dir: true, size: 0 }
}

#[test]
fn sample_text_is_deleted_and_single_video_wins() {
    let entries = vec![
        file("movie.mkv", 700_000_000),
        file("movie.srt", 40_000),
        file("sample.txt", 1_000),
    ];
    assert!(entry_kept(&entries[0]));
    assert!(entry_kept(&entries[1]));
    assert!(!entry_kept(&entries[2]));
    let chosen = curate(&entries).expect("one video remains");
    assert_eq!(chosen, 0);
    assert_eq!(entries[chosen].name, "movie.mkv");
}

#[test]
fn two_videos_fall_back_to_the_largest_file() {
    let entries = vec![
        file("part1.mp4", 100_000_000),
        file("part2.mp4", 250_000_000),
    ];
    let chosen = curate(&entries).expect("fallback picks a file");
    assert_eq!(chosen, 1);
    assert_eq!(entries[chosen].name, "part2.mp4");
}

#[test]
fn equal_sizes_keep_the_first_listed_file() {
    let entries = vec![
        file("a.mp4", 5_000),
        file("b.mp4", 5_000),
    ];
    assert_eq!(curate(&entries), Ok(0));
}

#[test]
fn empty_folder_fails_with_no_media_found() {
    let entries: Vec<FsEntry> = Vec::new();
    assert_eq!(curate(&entries), Err(CurationError::NoMediaFound));
}

#[test]
fn folder_of_only_unrecognized_files_fails() {
    let entries = vec![
        file("readme.md", 2_000),
        file("sample.txt", 9_000),
        dir("extras"),
    ];
    assert!(!entry_kept(&entries[0]));
    assert!(!entry_kept(&entries[1]));
    assert!(!entry_kept(&entries[2]));
    assert_eq!(curate(&entries), Err(CurationError::NoMediaFound));
}

#[test]
fn directories_are_never_kept_even_with_video_names() {
    let entries = vec![dir("clip.mkv"), file("show.avi", 10)];
    assert!(!entry_kept(&entries[0]));
    assert!(!entry_video(&entries[0]));
    assert_eq!(curate(&entries), Ok(1));
}

#[test]
fn subtitle_only_folder_falls_back_to_the_subtitle() {
    // no video at all: the size fallback still returns the largest kept file
    let entries = vec![file("movie.srt", 40_000), file("notes.txt", 90_000)];
    assert_eq!(curate(&entries), Ok(0));
}

#[test]
fn extension_edge_cases() {
    assert!(!entry_kept(&file(".srt", 10)));
    assert!(!entry_kept(&file("README", 10)));
    assert!(!entry_kept(&file("movie.mkv.txt", 10)));
    assert!(entry_kept(&file("a.b.mov", 10)));
    assert!(entry_video(&file("a.b.mov", 10)));
    assert!(!entry_video(&file("movie.srt", 10)));
}

#[test]
fn curation_twice_is_a_no_op() {
    let entries = vec![
        file("part1.mp4", 100),
        file("sample.txt", 999),
        file("part2.mp4", 250),
        file("movie.srt", 40),
    ];
    let first = curate(&entries).expect("fallback picks a file");
    let pruned: Vec<FsEntry> = entries
        .iter()
        .filter(|e| entry_kept(e))
        .map(|e| FsEntry { name: e.name.clone(), is_dir: e.is_dir, size: e.size })
        .collect();
    // the second pruning pass deletes nothing
    assert!(pruned.iter().all(|e| entry_kept(e)));
    let second = curate(&pruned).expect("still resolves");
    assert_eq!(pruned[second].name, entries[first].name);
    assert_eq!(entries[first].name, "part2.mp4");
}
