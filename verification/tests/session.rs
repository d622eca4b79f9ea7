//! Naming rules and session boundaries.
use std::cell::RefCell;

use record_tui::disk::{CreateError, CreateOutcome, Disk};
use record_tui::path::FilePath;
use record_tui::session::{
    available_clip_path, clip_stem, create_session_directory, default_segment_duration,
    mp3_output_path, part_path, segment_frame_limit, NameProblem, OutputTarget,
    MAX_CLIP_STEM_CHARS,
};
use record_tui::time::Duration;

fn path(name: &str) -> FilePath {
    FilePath::new("", name, '/')
}

fn directory() -> FilePath {
    FilePath::new("/tmp/", "takes", '/')
}

#[test]
fn adds_an_mp3_extension() {
    assert!(mp3_output_path(&path("take-one")).unwrap().same(&path("take-one.mp3")));
}

#[test]
fn preserves_an_mp3_extension_without_changing_case() {
    assert!(mp3_output_path(&path("take-one.MP3")).unwrap().same(&path("take-one.MP3")));
}

#[test]
fn rejects_a_different_output_extension() {
    let error = mp3_output_path(&path("take-one.wav")).unwrap_err();
    assert_eq!(error.problem, NameProblem::OtherExtension);
    assert_eq!(error.message(), "the output file must use the .mp3 extension");
}

#[test]
fn names_with_several_dots_keep_their_last_extension() {
    assert!(mp3_output_path(&path("take.one")).is_err());
    assert!(mp3_output_path(&path("take.one.mp3")).unwrap().same(&path("take.one.mp3")));
    assert!(mp3_output_path(&path(".take")).unwrap().same(&path(".take.mp3")));
    assert!(mp3_output_path(&path("take.")).is_err());
}

#[test]
fn a_location_without_a_file_name_is_rejected() {
    for (folder, name) in [("/", ""), ("", ""), ("..", ""), ("", ".."), ("", ".")] {
        let error = mp3_output_path(&FilePath::new(folder, name, '/')).unwrap_err();
        assert_eq!(error.problem, NameProblem::OtherExtension);
    }
    assert!(mp3_output_path(&path("...")).is_err());
    assert!(mp3_output_path(&path("..a")).is_err());
}

#[test]
fn creates_unique_session_directories() {
    let parent = directory();
    let existing: RefCell<Vec<String>> = RefCell::new(Vec::new());
    let folders: RefCell<Vec<String>> = RefCell::new(Vec::new());
    let mut disk = Disk::new(
        |_: &FilePath| false,
        |place: &FilePath| {
            folders.borrow_mut().push(place.folder.clone());
            true
        },
        |candidate: &FilePath| {
            let text = candidate.text();
            if existing.borrow().contains(&text) {
                CreateOutcome::AlreadyExists
            } else {
                existing.borrow_mut().push(text);
                CreateOutcome::Created
            }
        },
    );
    let first = create_session_directory(&parent, "20260820-190800", &mut disk).unwrap();
    let second = create_session_directory(&parent, "20260820-190800", &mut disk).unwrap();
    assert_eq!(first.name, "recording-20260820-190800");
    assert_eq!(second.name, "recording-20260820-190800-2");
    assert_eq!(second.folder, "/tmp/takes/");
    assert_eq!(*existing.borrow(), vec![first.text(), second.text()]);
    assert_eq!(*folders.borrow(), vec!["/tmp/takes/".to_owned(), "/tmp/takes/".to_owned()]);
}

#[test]
fn session_creation_reports_failures_and_exhaustion() {
    let parent = directory();
    let tried = RefCell::new(0);
    let search = |folder: bool, outcome: CreateOutcome| {
        *tried.borrow_mut() = 0;
        let mut disk = Disk::new(
            |_: &FilePath| false,
            |_: &FilePath| folder,
            |_: &FilePath| {
                *tried.borrow_mut() += 1;
                outcome
            },
        );
        create_session_directory(&parent, "1", &mut disk).unwrap_err()
    };
    assert_eq!(search(true, CreateOutcome::Failed), CreateError::Failed);
    assert_eq!(*tried.borrow(), 1);
    assert_eq!(search(true, CreateOutcome::AlreadyExists), CreateError::NoFreeName);
    assert_eq!(*tried.borrow(), 9_999);
    assert_eq!(search(false, CreateOutcome::Created), CreateError::NoFolder);
    assert_eq!(*tried.borrow(), 0);
}

#[test]
fn names_join_without_a_second_separator() {
    for (folder, name, joined) in [
        ("", "", "take"),
        ("C:", "", "C:take"),
        ("C:\\", "", "C:\\take"),
        ("C:/", "", "C:/take"),
        ("C:\\", "takes", "C:\\takes\\take"),
        ("", "takes/", "takes/take"),
        ("", "1:", "1:\\take"),
        ("", "CD:", "CD:\\take"),
    ] {
        assert_eq!(FilePath::new(folder, name, '\\').child("take").text(), joined);
    }
    assert_eq!(FilePath::new("", "C:", '/').child("take").text(), "C:/take");
    assert_eq!(FilePath::new("", "a\\", '/').child("take").text(), "a\\/take");
}

#[test]
fn locations_are_compared_name_by_name() {
    let unix = |left: &str, right: &str| {
        FilePath::new("", left, '/').same(&FilePath::new("", right, '/'))
    };
    assert!(unix("a//b/x", "a/b/x"));
    assert!(unix("a/./b/x/", "a/b/x"));
    assert!(unix("//a", "/a"));
    assert!(!unix("a/b", "/a/b"));
    assert!(!unix("./a", "a"));
    assert!(!unix("a/../a", "a"));
    assert!(!unix("a\\b", "a/b"));
    assert!(!unix("C:a", "c:a"));
    assert!(unix(".", "./."));
    assert!(!unix("", "."));
    let windows = |left: &str, right: &str| {
        FilePath::new("", left, '\\').same(&FilePath::new("", right, '\\'))
    };
    assert!(windows("C:\\a/b", "c:/a\\b"));
    assert!(!windows("C:a", "C:\\a"));
    assert!(!windows("C:\\a", "D:\\a"));
    assert!(!windows("\\\\server\\share", "\\server\\share"));
    assert!(windows("C:\\a\\.\\b", "C:\\a\\b"));
    assert!(!windows("A", "a"));
    assert!(!path("a").same(&FilePath::new("", "a", '\\')));
}

#[test]
fn formats_part_numbers_with_a_minimum_width() {
    let directory = path("session");
    assert!(part_path(&directory, 1).same(&directory.child("part-001.mp3")));
    assert!(part_path(&directory, 1_024).same(&directory.child("part-1024.mp3")));
}

#[test]
fn accepts_a_clip_name_with_or_without_the_extension() {
    assert_eq!(clip_stem("  intro  ").unwrap(), "intro");
    assert_eq!(clip_stem("intro.MP3").unwrap(), "intro");
}

#[test]
fn rejects_unsafe_and_reserved_clip_names() {
    for name in [
        "",
        ".",
        "..",
        "../take",
        r"folder\take",
        "bad:name",
        "take.",
        "NUL",
        "CONIN$",
        "CONOUT$.txt",
        "CLOCK$",
        "com1.mp3",
        "LPT9.notes",
    ] {
        assert!(clip_stem(name).is_err(), "{name:?} should be invalid");
    }
}

#[test]
fn clip_name_problems_have_their_own_messages() {
    let cases = [
        ("   ", "enter a file name"),
        (".mp3", "enter a file name"),
        ("..", "the file name cannot be a dot path"),
        ("take.", "the file name cannot end with a space or dot"),
        ("take .mp3", "the file name cannot end with a space or dot"),
        ("a|b", "the file name contains a character that Windows does not allow"),
        ("a\u{7}b", "the file name contains a character that Windows does not allow"),
        ("lpt1", "the file name is reserved by Windows"),
    ];
    for (name, message) in cases {
        assert_eq!(clip_stem(name).unwrap_err().message(), message, "{name:?}");
    }
    assert_eq!(clip_stem("com0").unwrap(), "com0");
    assert_eq!(clip_stem("nullify").unwrap(), "nullify");
    assert_eq!(clip_stem("a.mp3.mp3").unwrap(), "a.mp3");
}

#[test]
fn rejects_a_clip_name_over_the_character_limit() {
    let name = "é".repeat(MAX_CLIP_STEM_CHARS + 1);
    assert_eq!(clip_stem(&name).unwrap_err().problem, NameProblem::TooLong);
}

#[test]
fn adds_a_suffix_when_a_clip_name_exists() {
    let directory = directory();
    let current = directory.child("part-001.mp3");
    let chosen = available_clip_path(&directory, "intro", &current, |candidate: &FilePath| {
        candidate.name == "intro.mp3"
    })
    .unwrap();
    assert!(chosen.same(&directory.child("intro-2.mp3")));
}

#[test]
fn permits_the_current_part_path_as_a_clip_path() {
    let directory = directory();
    let current = directory.child("part-001.mp3");
    let chosen =
        available_clip_path(&directory, "part-001", &current, |_: &FilePath| true).unwrap();
    assert!(chosen.same(&current));
    let doubled = FilePath::new("/tmp//takes/", "part-001.mp3", '/');
    let chosen =
        available_clip_path(&directory, "part-001", &doubled, |_: &FilePath| true).unwrap();
    assert_eq!(chosen.text(), "/tmp/takes/part-001.mp3");
}

#[test]
fn converts_ten_minutes_to_exact_frame_counts() {
    assert_eq!(segment_frame_limit(default_segment_duration(), 48_000), 28_800_000);
    assert_eq!(segment_frame_limit(default_segment_duration(), 44_100), 26_460_000);
}

#[test]
fn gives_a_positive_limit_for_a_sub_frame_duration() {
    assert_eq!(segment_frame_limit(Duration::from_nanos(1), 48_000), 1);
}

#[test]
fn output_targets_report_their_root_and_capabilities() {
    let single = OutputTarget::SingleFile { path: path("take.mp3"), replace: false };
    let session = OutputTarget::Session {
        directory: path("session"),
        segment_duration: default_segment_duration(),
    };
    assert!(single.root().same(&path("take.mp3")));
    assert!(!single.is_session());
    assert!(session.root().same(&path("session")));
    assert!(session.is_session());
}

#[test]
fn clip_collision_suffixes_continue_until_a_free_path() {
    let directory = directory();
    let chosen =
        available_clip_path(&directory, "intro", &path("part-001.mp3"), |candidate: &FilePath| {
            candidate.name == "intro.mp3" || candidate.name == "intro-2.mp3"
        })
        .unwrap();
    assert!(chosen.same(&directory.child("intro-3.mp3")));
}

#[test]
fn a_clip_name_without_a_free_suffix_is_refused() {
    let directory = directory();
    let error =
        available_clip_path(&directory, "intro", &path("part-001.mp3"), |_: &FilePath| true)
            .unwrap_err();
    assert_eq!(error.message(), "could not choose a unique clip file name");
}

#[test]
fn maximum_length_uses_characters_instead_of_utf8_bytes() {
    let name = "é".repeat(MAX_CLIP_STEM_CHARS);
    assert_eq!(clip_stem(&name).unwrap(), name);
}

#[test]
fn unicode_names_without_an_extension_do_not_require_a_byte_boundary() {
    assert_eq!(clip_stem("éaé").unwrap(), "éaé");
}

#[test]
fn zero_rate_and_zero_duration_still_return_a_safe_frame_limit() {
    assert_eq!(segment_frame_limit(Duration::zero(), 48_000), 1);
    assert_eq!(segment_frame_limit(Duration::from_secs(10), 0), 1);
}

#[test]
fn frame_limits_grow_with_time() {
    let short = segment_frame_limit(Duration::from_millis(10), 44_100);
    let long = segment_frame_limit(Duration::from_millis(11), 44_100);
    assert_eq!((short, long), (441, 485));
}

#[test]
fn paths_join_with_one_separator() {
    assert_eq!(FilePath::new("/tmp/", "a", '/').child("b").text(), "/tmp/a/b");
    assert_eq!(FilePath::new("/", "", '/').child("b").text(), "/b");
    assert_eq!(FilePath::new("", "", '/').child("b").text(), "b");
    assert_eq!(FilePath::new(r"C:\", "a.b.c", '\\').stem(), "a.b");
    assert_eq!(FilePath::new("", "..", '/').extension(), None);
}
