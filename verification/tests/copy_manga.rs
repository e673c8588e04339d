use manga_server::backend::{BackendTrait, ChapterInfo, ChapterSource, PageSource, WalkEntry};
use manga_server::copy_manga::{place_of, read_all_infos, ChapterBasicInfoLocal, CopyManga};

fn hash(name: &str) -> String {
    format!("{:?}", md5::compute(name))
}

fn at(depth: usize, is_file: bool, path: &str) -> WalkEntry {
    let file_name = path.rsplit(|c| c == '/' || c == '\\').next().unwrap().to_string();
    WalkEntry { depth, is_file, file_name, path: path.to_string() }
}

fn listing() -> Vec<WalkEntry> {
    vec![
        at(0, false, "d:/aaa"),
        at(1, false, "d:/aaa/One Piece"),
        at(2, false, "d:/aaa/One Piece/Chapter 2"),
        at(3, true, "d:/aaa/One Piece/Chapter 2/001.jpg"),
        at(3, true, "d:/aaa/One Piece/Chapter 2/002.jpg"),
        at(2, false, "d:/aaa/One Piece/Chapter 10"),
        at(3, true, "d:/aaa/One Piece/Chapter 10/001.jpg"),
        at(2, false, "d:/aaa/One Piece/Chapter 1"),
        at(3, true, r"d:\aaa\One Piece\Chapter 1\001.jpg"),
        at(3, true, r"d:\aaa\One Piece\Chapter 1\002.jpg"),
        at(3, true, r"d:\aaa\One Piece\Chapter 1\003.jpg"),
        at(4, true, "d:/aaa/One Piece/Chapter 1/extra/004.jpg"),
        at(1, true, "d:/aaa/readme.txt"),
        at(1, false, "d:/aaa/Naruto"),
        at(2, false, "d:/aaa/Naruto/Vol 1"),
        at(3, true, "d:/aaa/Naruto/Vol 1/001.jpg"),
        at(1, false, "d:/aaa/Empty"),
        at(2, false, "d:/aaa/Empty/Nothing"),
    ]
}

#[test]
fn copy_manga_t_read_all_infos() {
    let found = read_all_infos(&listing());
    assert_eq!(found.len(), 2);
    assert_eq!(found[0].name, "One Piece");
    assert_eq!(
        found[0].chapters,
        vec![
            ("Chapter 2".to_string(), ChapterBasicInfoLocal { length: 2 }),
            ("Chapter 10".to_string(), ChapterBasicInfoLocal { length: 1 }),
            ("Chapter 1".to_string(), ChapterBasicInfoLocal { length: 3 }),
        ]
    );
    assert_eq!(found[1].name, "Naruto");
    assert_eq!(found[1].chapters, vec![("Vol 1".to_string(), ChapterBasicInfoLocal { length: 1 })]);
}

#[test]
fn copy_manga_t_impl_backend() {
    let backend = CopyManga::new(&listing());
    let list = backend.generate_manga_list("d:/aaa");
    assert_eq!(list.path, "d:/aaa");
    assert_eq!(list.list.len(), 2);
    let id = "308442ced77bb9e04b1efaa9222c1ecb";
    assert_eq!(hash("One Piece"), id);
    let e = list.list.get(id).unwrap();
    assert_eq!(e.name, "One Piece");
    assert_eq!(e.id, id);
    let names: Vec<&str> = e.chapters.iter().map(|c| c.name.as_str()).collect();
    assert_eq!(names, vec!["Chapter 1", "Chapter 10", "Chapter 2"]);
    let lengths: Vec<usize> = e.chapters.iter().map(|c| c.length).collect();
    assert_eq!(lengths, vec![3, 1, 2]);
    assert_eq!(e.chapters[0].id, "8fe1f2e455ff223c81a6441733982773");
    assert_eq!(e.chapters[1].id, hash("Chapter 10"));
    assert_eq!(e.chapters[2].id, hash("Chapter 2"));
    assert_eq!(e.pic, format!("/manga/{}/8fe1f2e455ff223c81a6441733982773/0", id));
    let n = list.list.get(&hash("Naruto")).unwrap();
    assert_eq!(n.name, "Naruto");
    assert_eq!(n.pic, format!("/manga/{}/{}/0", hash("Naruto"), hash("Vol 1")));
    assert!(list.list.get(&hash("Empty")).is_none());
}

#[test]
fn tree_place_reads_the_two_directories_above_an_entry() {
    assert_eq!(
        place_of(&at(3, true, "root/a/b/c.jpg")),
        Some(("a".to_string(), "b".to_string()))
    );
    assert_eq!(
        place_of(&at(3, false, r"C:\x\item\chapter\dir")),
        Some(("item".to_string(), "chapter".to_string()))
    );
    assert_eq!(place_of(&at(2, true, "root/a/b")), None);
    assert_eq!(place_of(&at(4, true, "root/a/b/c/d")), None);
    assert_eq!(place_of(&at(3, true, "a/b")), None);
    assert_eq!(place_of(&at(3, true, "a/b/c")), Some(("a".to_string(), "b".to_string())));
}

#[test]
fn tree_pages_are_numbered_from_one_with_three_digits() {
    let backend = CopyManga::new(&listing());
    let list = backend.generate_manga_list("d:/aaa");
    let id = hash("One Piece");
    let chapter = hash("Chapter 1");
    for i in 0..3usize {
        assert_eq!(
            backend.get_pic_in_chapter(&list, "d:/aaa", &id, &chapter, i),
            Some(PageSource::File { path: format!("d:/aaa/One Piece/Chapter 1/{:03}.jpg", i + 1) })
        );
    }
    assert_eq!(
        backend.get_pic_in_chapter(&list, "/other", &id, &chapter, 0),
        Some(PageSource::File { path: "/other/One Piece/Chapter 1/001.jpg".to_string() })
    );
}

#[test]
fn tree_pages_out_of_range_are_not_found() {
    let backend = CopyManga::new(&listing());
    let list = backend.generate_manga_list("d:/aaa");
    let id = hash("One Piece");
    let chapter = hash("Chapter 1");
    assert_eq!(backend.get_pic_in_chapter(&list, "d:/aaa", &id, &chapter, 3), None);
    assert_eq!(backend.get_pic_in_chapter(&list, "d:/aaa", &id, &chapter, usize::MAX), None);
    assert_eq!(backend.get_pic_in_chapter(&list, "d:/aaa", &id, "Chapter 1", 0), None);
    assert_eq!(backend.get_pic_in_chapter(&list, "d:/aaa", "One Piece", &chapter, 0), None);
    assert_eq!(backend.get_pic_in_chapter(&list, "d:/aaa", &id, &hash("Vol 1"), 0), None);
}

#[test]
fn tree_chapter_facts_come_from_the_catalog() {
    let backend = CopyManga::new(&listing());
    let list = backend.generate_manga_list("d:/aaa");
    assert_eq!(
        backend.get_chapter_info(&list, "d:/aaa", &hash("One Piece"), &hash("Chapter 10")),
        Some(ChapterSource::Known { info: ChapterInfo { length: 1, name: "Chapter 10".to_string() } })
    );
    assert_eq!(backend.get_chapter_info(&list, "d:/aaa", &hash("One Piece"), "x"), None);
    assert_eq!(backend.get_chapter_info(&list, "d:/aaa", "x", &hash("Chapter 10")), None);
}

#[test]
fn tree_scan_of_an_empty_listing_is_empty() {
    let backend = CopyManga::new(&Vec::new());
    assert_eq!(backend.info.len(), 0);
    assert_eq!(backend.generate_manga_list("x").list.len(), 0);
}

#[test]
fn tree_catalog_is_the_same_each_time() {
    let a = CopyManga::new(&listing()).generate_manga_list("d:/aaa");
    let b = CopyManga::new(&listing()).generate_manga_list("d:/aaa");
    assert_eq!(a.list.len(), b.list.len());
    for i in 0..a.list.len() {
        assert_eq!(a.list.entry(i), b.list.entry(i));
    }
}

#[test]
fn tree_identifiers_have_a_fixed_width() {
    let backend = CopyManga::new(&listing());
    assert!(backend.names_told_apart());
    assert!(backend.info.iter().all(|g| g.chapters_told_apart()));
    let list = backend.generate_manga_list("d:/aaa");
    for i in 0..list.list.len() {
        let e = list.list.entry(i).unwrap();
        assert_eq!(e.id.chars().count(), 32);
        assert!(e.chapters.iter().all(|c| c.id.chars().count() == 32));
        assert!(e.id.chars().all(|c| c.is_ascii_digit() || ('a'..='f').contains(&c)));
    }
}
