use potato_core::file_ops::{
    change_kind, change_text, check_artifact, check_expected, edit_source, line_range, read_text, render_lines, template_target,
    unchanged, write_target, Change, Expected,
};
use potato_core::file_search::{search_page, visit, EntryKind, Visit};
use potato_core::file_search::{finish, Paging};
use potato_core::memory::{note_hit, note_page, note_query, note_text, skipped_by_search, valid_note, NoteScan};
use potato_core::paths::LibPath;

#[test]
fn line_ranges_are_numbered_and_page_without_gaps() {
    let text = "一\n二\n三\n";
    let (start, end) = line_range(Some(1), Some(2)).unwrap();
    let r = render_lines(text, start, end).unwrap();
    assert_eq!(r.content, "1: 一\n2: 二");
    assert_eq!(r.next_start_line, Some(3));
    let (start, end) = line_range(Some(3), None).unwrap();
    let r = render_lines(text, start, end).unwrap();
    assert_eq!(r.content, "3: 三");
    assert_eq!(r.next_start_line, None);
    assert_eq!(r.total_lines, 3);
}

#[test]
fn line_ranges_are_validated() {
    assert_eq!(line_range(None, None).unwrap(), (1, 400));
    assert_eq!(line_range(Some(0), None).unwrap_err().status, 400);
    assert_eq!(line_range(Some(5), Some(4)).unwrap_err().status, 400);
    assert!(line_range(Some(1), Some(10_000)).is_ok());
    assert!(line_range(Some(1), Some(10_001)).is_err());
    assert_eq!(
        render_lines("a\nb", 4, 10).unwrap_err().message,
        "start_line is beyond the 2 lines in the file"
    );
    assert_eq!(render_lines("a\nb", 3, 10).unwrap().content, "");
    assert_eq!(render_lines("a\u{0}", 1, 1).unwrap_err().message, "File contains binary data");
    assert_eq!(render_lines("a\r\nb\r", 1, 5).unwrap().content, "1: a\n2: b\r");
    assert_eq!(render_lines("", 1, 5).unwrap().total_lines, 0);
}

#[test]
fn edits_are_unambiguous_and_preserve_concurrent_changes() {
    let before = "same\nsame\n中文";
    let e = change_text(Some(before), Some(Change::Edit), None, "same", Some("new"), false).unwrap_err();
    assert_eq!(e.status, 409);
    assert_eq!(
        change_text(Some(before), Some(Change::Edit), None, "same", Some("new"), true).unwrap(),
        "new\nnew\n中文"
    );
    assert_eq!(
        change_text(Some(before), Some(Change::Edit), None, "中", Some("英"), false).unwrap(),
        "same\nsame\n英文"
    );
    assert_eq!(change_text(Some(before), Some(Change::Edit), None, "absent", Some("x"), false).unwrap_err().status, 409);
    assert_eq!(change_text(None, Some(Change::Edit), None, "same", Some("x"), false).unwrap_err().status, 404);
    assert_eq!(change_text(Some(before), Some(Change::Edit), None, " ", Some("x"), false).unwrap_err().message, "old_text is required");
    assert_eq!(change_text(Some(before), Some(Change::Edit), None, "same", None, false).unwrap_err().message, "new_text is required");
    assert_eq!(change_text(None, Some(Change::Append), Some("tail"), "", None, false).unwrap(), "tail");
    assert_eq!(change_text(Some("a"), Some(Change::Append), None, "", None, false).unwrap_err().message, "content is required");
    assert_eq!(change_text(Some("a"), None, None, "", None, false).unwrap_err().status, 400);
    let big = "x".repeat(1_000_000);
    assert_eq!(change_text(Some(&big), Some(Change::Append), Some("y"), "", None, false).unwrap_err().status, 413);
    assert_eq!(change_kind("edit_file"), Some(Change::Edit));
    assert_eq!(change_kind("append_file"), Some(Change::Append));
    assert_eq!(change_kind("write_file"), None);
    assert_eq!(change_text(Some("aaa"), Some(Change::Edit), None, "aa", Some("b"), false).unwrap(), "ba");
}

#[test]
fn files_must_be_utf8_text() {
    assert_eq!(read_text("中".as_bytes().to_vec()).unwrap(), "中");
    assert_eq!(read_text(vec![0xff]).unwrap_err().message, "File is not UTF-8 text");
    assert_eq!(edit_source(None).unwrap(), None);
    assert_eq!(edit_source(Some(vec![0xe4])).unwrap_err().status, 400);
}

#[test]
fn note_names_are_relative_markdown_paths() {
    assert!(valid_note("preferences.md").is_ok());
    assert!(valid_note("topics/rust.md").is_ok());
    for bad in ["notes.txt", "/abs.md", "a//b.md", "./a.md", "../a.md", ".GIT/a.md", "a\\b.md", "c:a.md", "a\u{85}.md", "md", ".md/"] {
        assert_eq!(valid_note(bad).unwrap_err().message, "Expected a relative Markdown note path", "{bad}");
    }
    assert!(valid_note(&format!("{}.md", "a".repeat(237))).is_ok());
    assert!(valid_note(&format!("{}.md", "a".repeat(238))).is_err());
}

#[test]
fn search_paging_and_entries() {
    let page = search_page("needle", Some(5), Some(500)).unwrap();
    assert_eq!((page.offset, page.limit), (5, 200));
    assert_eq!(search_page("needle", None, Some(0)).unwrap().limit, 1);
    assert_eq!(search_page("needle", None, None).unwrap().limit, 50);
    assert_eq!(search_page(" ", None, None).unwrap_err().message, "pattern is required");
    assert!(search_page(&"a".repeat(4097), None, None).is_err());
    let root = LibPath::parse("/p");
    let private = LibPath::parse("/p/private");
    let workspace = LibPath::parse("/p/private/workspace");
    let dir = EntryKind { dir: true, file: false, symlink: false };
    let file = EntryKind { dir: false, file: true, symlink: false };
    let link = EntryKind { dir: false, file: false, symlink: true };
    let here = LibPath::parse("");
    assert_eq!(visit(&root, &here, "src", &dir, &private, &workspace).0, Visit::Descend);
    assert_eq!(visit(&root, &here, "node_modules", &dir, &private, &workspace).0, Visit::Ignore);
    assert_eq!(visit(&root, &here, ".env", &file, &private, &workspace).0, Visit::Skip);
    assert_eq!(visit(&root, &here, ".potato", &dir, &private, &workspace).0, Visit::Descend);
    let potato = LibPath::parse(".potato");
    assert_eq!(visit(&root, &potato, "config.json", &file, &private, &workspace).0, Visit::Skip);
    assert_eq!(visit(&root, &LibPath::parse(".potato/memory"), "a.md", &file, &private, &workspace).0, Visit::Match);
    assert_eq!(visit(&root, &here, "private", &dir, &private, &workspace).0, Visit::Skip);
    assert_eq!(visit(&root, &LibPath::parse("private"), "workspace", &dir, &private, &workspace).0, Visit::Descend);
    assert_eq!(visit(&root, &here, "link", &link, &private, &workspace).0, Visit::Skip);
    let (_, path) = visit(&root, &LibPath::parse("src"), "main.rs", &file, &private, &workspace);
    assert_eq!(path.display(), "src/main.rs");
}

#[test]
fn memory_queries_are_split_into_lower_case_terms() {
    assert_eq!(note_query("端口  API\tPort").unwrap(), vec!["端口".to_string(), "api".into(), "port".into()]);
    let e = note_query(" \n ").err().unwrap();
    assert_eq!((e.status, e.message.as_str()), (400, "Memory query is empty"));
    let e = note_query(&"q".repeat(4097)).err().unwrap();
    assert_eq!((e.status, e.message.as_str()), (400, "Memory query exceeds 4096 bytes"));
}

#[test]
fn notes_match_every_term_and_show_their_hit_lines() {
    let terms = note_query("端口 API").unwrap();
    assert_eq!(note_hit(&terms, "a.md", "端口 API = 8080").as_deref(), Some("端口 API = 8080"));
    assert_eq!(note_hit(&terms, "a.md", "port changed"), None);
    // A term may come from the name; lines are shown only where they hold a term.
    let terms = note_query("notes ports").unwrap();
    assert_eq!(note_hit(&terms, "notes.md", "intro\nports: 1\nother\nPORTS: 2").as_deref(), Some("ports: 1\nPORTS: 2"));
    let terms = note_query("notes").unwrap();
    assert_eq!(note_hit(&terms, "notes.md", "no hit here").as_deref(), Some("no hit here"));
    let long = "x".repeat(3000);
    assert_eq!(note_hit(&terms, "notes.md", &long).unwrap().chars().count(), 2000);
    let many: String = (0..10).map(|i| format!("notes {i}\n")).collect();
    let excerpt = note_hit(&terms, "n.md", &many).unwrap();
    assert_eq!(excerpt.lines().count(), 8);
    assert!(excerpt.ends_with("notes 7"));
}

#[test]
fn lexical_paging_follows_note_changes() {
    let run = |notes: &[(&str, &str)], offset: Option<u64>| {
        let terms = note_query("端口 API").unwrap();
        let mut paging = Paging::new(note_page(offset, Some(1)));
        let mut found = Vec::new();
        for (name, content) in notes {
            if note_hit(&terms, name, content).is_some() {
                if paging.record() {
                    found.push(name.to_string());
                }
                if paging.full() {
                    break;
                }
            }
        }
        let next = finish(&mut found, &paging);
        (found, next)
    };
    let notes = [("a.md", "端口 API = 8080"), ("b.md", "端口 API = 8080"), ("c.md", "端口 API = 8080")];
    let (first, next) = run(&notes, None);
    assert_eq!((first, next), (vec!["a.md".to_string()], Some(1)));
    let changed = [("a.md", "端口 API = 8080"), ("b.md", "port changed"), ("c.md", "端口 API = 8080")];
    let (second, next) = run(&changed, Some(1));
    assert_eq!((second, next), (vec!["c.md".to_string()], None));
}

#[test]
fn note_reads_and_scans_are_bounded() {
    assert_eq!(note_text(b"hello".to_vec()).unwrap(), "hello");
    assert_eq!(note_text(vec![b'a'; 1_000_001]).err().unwrap().status, 413);
    assert_eq!(note_text(vec![0xff]).err().unwrap().message, "Memory note must be UTF-8 text");
    assert_eq!(note_text(b"a\0b".to_vec()).err().unwrap().message, "Memory note contains binary data");
    assert!(skipped_by_search(404) && skipped_by_search(413) && skipped_by_search(400) && !skipped_by_search(500));
    let mut scan = NoteScan::new();
    assert!(scan.take_note(32_000_000));
    assert!(!scan.take_note(1));
    assert!(scan.capped);
    let p = note_page(None, None);
    assert_eq!((p.offset, p.limit), (0, 20));
    assert_eq!(note_page(Some(3), Some(500)).limit, 100);
    assert_eq!(note_page(None, Some(0)).limit, 1);
}

#[test]
fn writes_stay_in_the_project_and_out_of_git_metadata() {
    let project = LibPath::parse("/work/project");
    let ok = write_target(&project, &LibPath::parse("notes.md"), 5).unwrap();
    assert_eq!(ok.display(), "notes.md");
    let inside = write_target(&project, &LibPath::parse("/work/project/docs/a.md"), 0).unwrap();
    assert_eq!(inside.display(), "docs/a.md");
    let status = |t: &str, n: usize| write_target(&project, &LibPath::parse(t), n).err().unwrap().status;
    assert_eq!(status("../outside.md", 0), 400);
    assert_eq!(status(".git/config", 0), 400);
    assert_eq!(status("src/.GIT/x", 0), 400);
    assert_eq!(status("./x.md", 0), 400);
    assert_eq!(status("/work/project", 0), 400);
    assert_eq!(status("/elsewhere/x.md", 0), 403);
    assert_eq!(status("x.md", 1_000_001), 413);
    assert!(write_target(&project, &LibPath::parse("x.md"), 1_000_000).is_ok());
}

#[test]
fn templates_are_ordinary_project_files() {
    let project = LibPath::parse("/work/project");
    assert_eq!(template_target(&project, &LibPath::parse("t/report.docx")).unwrap().display(), "t/report.docx");
    let e = template_target(&project, &LibPath::parse("/tmp/t.docx")).err().unwrap();
    assert_eq!((e.status, e.message.as_str()), (403, "Template must be inside the project"));
    let e = template_target(&project, &LibPath::parse("../t.docx")).err().unwrap();
    assert_eq!((e.status, e.message.as_str()), (403, "Template must be an ordinary project file"));
    assert_eq!(template_target(&project, &LibPath::parse(".env")).err().unwrap().status, 403);
}

#[test]
fn saves_check_what_the_file_held() {
    let before = Some(b"before".to_vec());
    assert!(check_expected(&before, &None).is_ok());
    assert!(check_expected(&before, &Some(Expected::Text("before".into()))).is_ok());
    let e = check_expected(&before, &Some(Expected::Text("other".into()))).err().unwrap();
    assert_eq!((e.status, e.message.as_str()), (409, "File changed; read it again before saving"));
    assert!(check_expected(&None, &Some(Expected::Absent)).is_ok());
    assert_eq!(check_expected(&None, &Some(Expected::Text("x".into()))).err().unwrap().status, 409);
    assert_eq!(check_expected(&before, &Some(Expected::Other)).err().unwrap().status, 409);
    assert_eq!(check_expected(&Some(vec![0xff]), &Some(Expected::Absent)).err().unwrap().status, 400);
    assert!(unchanged(&before, &Some(b"before".to_vec())));
    assert!(!unchanged(&before, &Some(b"user edited".to_vec())));
    assert!(!unchanged(&before, &None));
    assert!(unchanged(&None, &None));
}

#[test]
fn office_artifacts_are_new_bounded_files() {
    assert!(check_artifact(2_000_000, false).is_ok());
    assert_eq!(check_artifact(2_000_000, true).err().unwrap().status, 409);
    assert_eq!(check_artifact(20_000_001, false).err().unwrap().message, "Office artifact exceeds 20 MB");
}
