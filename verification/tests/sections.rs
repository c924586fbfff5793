use nadeshiko::sections::{FilesSection, PreferencesSection};

#[test]
fn files_sections() {
    assert_eq!(FilesSection::iter(), vec![FilesSection::New, FilesSection::Watched]);
    assert_eq!(FilesSection::New.display(), "New");
    assert_eq!(FilesSection::Watched.display(), "Watched");
    assert_eq!(FilesSection::from(true), FilesSection::Watched);
    assert_eq!(FilesSection::from(false), FilesSection::New);
}

#[test]
fn preferences_sections() {
    let names: Vec<&str> = PreferencesSection::iter().iter().map(|s| s.display()).collect();
    assert_eq!(names, vec!["Candidates", "Feeds", "Kinds", "Formats", "Media", "Paths"]);
}
