use manga_server::backend::{BackendTrait, ChapterInfo, ChapterSource, PageSource, WalkEntry};
use manga_server::dmzj::{
    archive_file, locate_page, parse_archive_name, parse_mapping_line, read_all_zips,
    read_id_mapping, Dmzj, Located, MappingError, ZipGroup,
};

fn entry(root: &str, name: &str, is_file: bool) -> WalkEntry {
    WalkEntry {
        depth: 1,
        is_file,
        file_name: name.to_string(),
        path: format!("{}/{}", root, name),
    }
}

fn listing() -> Vec<WalkEntry> {
    let root = r"H:\g\Books\manga\zips";
    let mut v = vec![WalkEntry {
        depth: 0,
        is_file: false,
        file_name: "zips".to_string(),
        path: root.to_string(),
    }];
    for name in ["1_2.zip", "1_1.zip", "30_10.zip", "notes.txt", "1_10.zip", "a_b.zip", "30_9.zip", "5.zip"] {
        v.push(entry(root, name, true));
    }
    v.push(entry(root, "7_7.zip", false));
    v
}

fn names(v: &[&str]) -> Vec<Option<String>> {
    v.iter().map(|s| Some(s.to_string())).collect()
}

#[test]
fn t_read_all_zips() {
    let found = read_all_zips(&listing());
    assert_eq!(
        found,
        vec![
            ZipGroup { id: 1, chapters: vec![1, 2, 10] },
            ZipGroup { id: 30, chapters: vec![9, 10] },
        ]
    );
}

#[test]
fn dmzj_t() {
    let m = read_id_mapping("1==>Alpha\n30==>Beta\n").unwrap();
    assert_eq!(m.len(), 2);
    assert_eq!(m.get(&1).unwrap(), "Alpha");
    assert_eq!(m.get(&30).unwrap(), "Beta");
}

#[test]
fn mapping_strips_white_space_around_key_and_name() {
    let m = read_id_mapping(" 7 ==>  Seven Seas \r\n8==>\tEight").unwrap();
    assert_eq!(m.len(), 2);
    assert_eq!(m.get(&7).unwrap(), "Seven Seas");
    assert_eq!(m.get(&8).unwrap(), "Eight");
}

#[test]
fn mapping_of_an_empty_text_is_empty() {
    assert_eq!(read_id_mapping("").unwrap().len(), 0);
}

#[test]
fn mapping_keeps_the_last_name_of_a_key() {
    let m = read_id_mapping("1==>a\n1==>b\n").unwrap();
    assert_eq!(m.len(), 1);
    assert_eq!(m.get(&1).unwrap(), "b");
}

#[test]
fn mapping_fails_at_the_first_malformed_line() {
    assert_eq!(read_id_mapping("x==>a\n").unwrap_err(), MappingError { line: 0 });
    assert_eq!(read_id_mapping("1==>a\n\n2==>b\n").unwrap_err(), MappingError { line: 1 });
    assert_eq!(read_id_mapping("1==>a\n2=>b\n3==>c\nzz").unwrap_err(), MappingError { line: 1 });
    assert_eq!(read_id_mapping("\n").unwrap_err(), MappingError { line: 0 });
    assert_eq!(read_id_mapping("1==>a\n-2==>b").unwrap_err(), MappingError { line: 1 });
}

#[test]
fn mapping_line_ends_the_name_at_a_second_arrow() {
    let line: Vec<char> = "12==>a==>b".chars().collect();
    assert_eq!(parse_mapping_line(&line), Some((12, "a".to_string())));
    let empty_name: Vec<char> = "12==>".chars().collect();
    assert_eq!(parse_mapping_line(&empty_name), Some((12, "".to_string())));
    let no_key: Vec<char> = "==>a".chars().collect();
    assert_eq!(parse_mapping_line(&no_key), None);
}

#[test]
fn archive_names_hold_two_numbers() {
    assert_eq!(parse_archive_name("12_34.zip"), Some((12, 34)));
    assert_eq!(parse_archive_name("12_34"), Some((12, 34)));
    assert_eq!(parse_archive_name("12_34_x.zip"), Some((12, 34)));
    assert_eq!(parse_archive_name("12_34.5.zip"), Some((12, 34)));
    assert_eq!(parse_archive_name("0_0.zip"), Some((0, 0)));
}

#[test]
fn malformed_archive_names_are_passed_over() {
    for name in ["", "12.zip", "a_1.zip", "1_b.zip", "1_.zip", "_1.zip", "1 _2.zip", "1__2.zip"] {
        assert_eq!(parse_archive_name(name), None, "{}", name);
    }
}

#[test]
fn dmzj_catalog_names_items_by_the_side_table() {
    let root = r"H:\g\Books\manga\zips";
    let d = Dmzj::new(&listing(), "1==>Alpha\n").unwrap();
    let list = d.generate_manga_list(root);
    assert_eq!(list.path, root);
    assert_eq!(list.list.len(), 2);
    let a = list.list.get("1").unwrap();
    assert_eq!(a.name, "Alpha");
    assert_eq!(a.id, "1");
    assert_eq!(a.pic, "/manga/1/1/0");
    let ids: Vec<&str> = a.chapters.iter().map(|c| c.id.as_str()).collect();
    assert_eq!(ids, vec!["1", "2", "10"]);
    let titles: Vec<&str> = a.chapters.iter().map(|c| c.name.as_str()).collect();
    assert_eq!(titles, vec!["id:1", "id:2", "id:10"]);
    assert!(a.chapters.iter().all(|c| c.length == 0));
    let b = list.list.get("30").unwrap();
    assert_eq!(b.name, "30");
    assert_eq!(b.pic, "/manga/30/9/0");
}

#[test]
fn dmzj_fails_on_a_malformed_side_table() {
    assert_eq!(Dmzj::new(&listing(), "Alpha\n").unwrap_err(), MappingError { line: 0 });
}

#[test]
fn dmzj_pages_are_looked_for_in_the_archive() {
    let d = Dmzj::new(&listing(), "").unwrap();
    let list = d.generate_manga_list("zips");
    assert_eq!(
        d.get_pic_in_chapter(&list, "zips", "1", "2", 3),
        Some(PageSource::ArchiveEntry { archive: "zips/1_2.zip".to_string(), page: 3 })
    );
    assert_eq!(archive_file("/srv/z", "30", "9"), "/srv/z/30_9.zip");
}

#[test]
fn dmzj_chapter_length_is_the_number_of_entries() {
    let d = Dmzj::new(&listing(), "").unwrap();
    let list = d.generate_manga_list("zips");
    let source = d.get_chapter_info(&list, "zips", "1", "2").unwrap();
    assert_eq!(
        source,
        ChapterSource::Archive { archive: "zips/1_2.zip".to_string(), name: "id:2".to_string() }
    );
    assert_eq!(source.with_count(5), ChapterInfo { length: 5, name: "id:2".to_string() });
}

#[test]
fn archive_with_five_pages() {
    let entries = names(&["0.jpg", "1.jpg", "2.jpg", "3.jpg", "4.jpg"]);
    let source = ChapterSource::Archive { archive: "a.zip".to_string(), name: "id:1".to_string() };
    assert_eq!(source.with_count(entries.len()).length, 5);
    for i in 0..5usize {
        assert_eq!(locate_page(&entries, i), Located::Found(i));
    }
    assert_eq!(locate_page(&entries, 5), Located::Absent);
    assert_eq!(locate_page(&entries, usize::MAX), Located::Absent);
}

#[test]
fn archive_entries_are_found_by_name_not_by_place() {
    let entries = names(&["cover.png", "2.jpg", "0.jpg", "1.jpg", "00.jpg"]);
    assert_eq!(locate_page(&entries, 0), Located::Found(2));
    assert_eq!(locate_page(&entries, 1), Located::Found(3));
    assert_eq!(locate_page(&entries, 2), Located::Found(1));
    assert_eq!(locate_page(&entries, 3), Located::Absent);
    assert_eq!(locate_page(&entries, 4), Located::Absent);
    assert_eq!(locate_page(&Vec::new(), 0), Located::Absent);
}

#[test]
fn archive_entry_that_cannot_be_read_stops_the_look() {
    let mut entries = names(&["0.jpg", "1.jpg", "2.jpg"]);
    entries[1] = None;
    assert_eq!(locate_page(&entries, 0), Located::Found(0));
    assert_eq!(locate_page(&entries, 1), Located::Unreadable(1));
    assert_eq!(locate_page(&entries, 2), Located::Unreadable(1));
    assert_eq!(locate_page(&entries, 3), Located::Absent);
}

#[test]
fn archive_scan_is_the_same_each_time() {
    assert_eq!(read_all_zips(&listing()), read_all_zips(&listing()));
}

#[test]
fn known_chapter_keeps_its_own_count() {
    let known = ChapterSource::Known { info: ChapterInfo { length: 3, name: "x".to_string() } };
    assert_eq!(known.with_count(9), ChapterInfo { length: 3, name: "x".to_string() });
}
