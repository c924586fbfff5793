use std::path::Path;

use nadeshiko::candidates::CandidatesEntry;
use nadeshiko::updates::{UpdatesEntries, UpdatesEntry};

#[test]
fn updates_valid() {
    // setup
    
    let files = generate_files();
    
    let candidates = [
        &CandidatesEntry::new().with_title(String::from("Fictional")),
        &CandidatesEntry::new().with_title(String::from("Not defined")),
        &CandidatesEntry::new().with_title(String::from("Test")),
    ];
    
    // operation
    
    let mut output = UpdatesEntries::get(&files, &candidates);
    
    // control
    
    let output: Vec<UpdatesEntry<&Path>> = output.collect_all();
    
    assert_eq!(output, Vec::from([
        UpdatesEntry {
            name: "[Imaginary] Fictional - 9 [480p]",
            path: Path::new("fake/path/[Imaginary] Fictional - 9 [480p].mp4"),
            episode: 9,
            candidate: &CandidatesEntry::new().with_title(String::from("Fictional")),
        },
        UpdatesEntry {
            name: "[Imaginary] Fictional - 10 [480p]",
            path: Path::new("fake/path/[Imaginary] Fictional - 10 [480p].mp4"),
            episode: 10,
            candidate: &CandidatesEntry::new().with_title(String::from("Fictional")),
        },
        UpdatesEntry {
            name: "[Placeholder] Test - 12 [1080p]",
            path: Path::new("fake/path/[Placeholder] Test - 12 [1080p].mkv"),
            episode: 12,
            candidate: &CandidatesEntry::new().with_title(String::from("Test")),
        },
    ]));
}

#[test]
fn updates_invalid() {
    // setup
    
    let files = generate_files();
    
    let candidates = [
        &CandidatesEntry::new().with_title(String::from("Not defined")),
    ];
    
    // operation
    
    let mut output = UpdatesEntries::get(&files, &candidates);
    
    // control
    
    let output: Vec<UpdatesEntry<&Path>> = output.collect_all();
    
    assert!(output.is_empty());
}

#[test]
fn updates_empty() {
    // setup
    
    let files = Vec::new();
    
    let candidates = Vec::new();
    
    // operation
    
    let mut output = UpdatesEntries::get(&files, &candidates);
    
    // control
    
    let output: Vec<UpdatesEntry<&Path>> = output.collect_all();
    
    assert!(output.is_empty());
}

#[test]
fn empty_files() {
    // setup
    
    let files = Vec::new();
    
    let candidates = [
        &CandidatesEntry::new().with_title(String::from("Fictional")),
        &CandidatesEntry::new().with_title(String::from("Not defined")),
        &CandidatesEntry::new().with_title(String::from("Test")),
    ];
    
    // operation
    
    let mut output = UpdatesEntries::get(&files, &candidates);
    
    // control
    
    let output: Vec<UpdatesEntry<&Path>> = output.collect_all();
    
    assert!(output.is_empty());
}

#[test]
fn updates_empty_candidates() {
    // setup
    
    let files = generate_files();
    
    let candidates = Vec::new();
    
    // operation
    
    let mut output = UpdatesEntries::get(&files, &candidates);
    
    // control
    
    let output: Vec<UpdatesEntry<&Path>> = output.collect_all();
    
    assert!(output.is_empty());
}

fn generate_files() -> Vec<(&'static str, &'static Path)> {
    Vec::from([
        (
            "[Imaginary] Fictional - 9 [480p]",
            Path::new("fake/path/[Imaginary] Fictional - 9 [480p].mp4"),
        ),
        (
            "[Imaginary] Fictional - 10 [480p]",
            Path::new("fake/path/[Imaginary] Fictional - 10 [480p].mp4"),
        ),
        (
            "[Not-present] Other - 17 [720p]",
            Path::new("fake/path/[Not-present] Other - 17 [720p].mkv"),
        ),
        (
            "[Placeholder] Test - 12 [1080p]",
            Path::new("fake/path/[Placeholder] Test - 12 [1080p].mkv"),
        ),
    ])
}
