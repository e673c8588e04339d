use manga_server::backend::{BackendTrait, ChapterInfo, ChapterSource, PageSource, WalkEntry};
use manga_server::manga_list::MangaList;
use manga_server::shaft::{parse_image_name, read_all_info, ImageName, Shaft};

fn file(root: &str, name: &str) -> WalkEntry {
    WalkEntry {
        depth: 1,
        is_file: true,
        file_name: name.to_string(),
        path: format!("{}/{}", root, name),
    }
}

fn listing() -> Vec<WalkEntry> {
    let root = r"F:\media\ShaftImages";
    let mut v = vec![WalkEntry {
        depth: 0,
        is_file: false,
        file_name: "ShaftImages".to_string(),
        path: root.to_string(),
    }];
    for name in [
        "sky_101_p1.jpg",
        "one_7.png",
        "sky_101_p2.jpg",
        "notes.txt",
        "sky_101_p3.jpg",
        "one_7 (1).png",
        "one_7.gif",
        "broken_p1.jpg",
        "two_words_55.jpg",
        "jpg",
    ] {
        v.push(file(root, name));
    }
    v
}

#[test]
fn t_impl() {
    let shaft = Shaft::new(&Vec::new());
    let list: MangaList = shaft.generate_manga_list("");
    assert_eq!(list.list.len(), 0);
    assert_eq!(list.path, "");
    assert!(list.all_basic_info.is_none());
}

#[test]
fn t_str() {
    let path = r"F:\media\ShaftImages";
    let found = read_all_info(&listing());
    assert_eq!(found.len(), 3);
    assert_eq!(found[0].id, 101);
    assert_eq!(found[0].name, "m-sky");
    assert_eq!(found[0].all_pages, 3);
    assert!(!found[0].is_single);
    assert_eq!(found[0].extend_name, "jpg");
    assert_eq!(
        found[0].full_paths,
        vec![
            (1, format!("{}/sky_101_p1.jpg", path)),
            (2, format!("{}/sky_101_p2.jpg", path)),
            (3, format!("{}/sky_101_p3.jpg", path)),
        ]
    );
    assert_eq!(found[1].id, 7);
    assert_eq!(found[1].name, "s-one");
    assert_eq!(found[1].all_pages, 2);
    assert!(found[1].is_single);
    assert_eq!(found[1].extend_name, "png");
    assert_eq!(found[1].full_paths, vec![(0, format!("{}/one_7.png", path))]);
    assert_eq!(found[2].id, 55);
    assert_eq!(found[2].name, "s-two_words");
}

#[test]
fn image_name_of_a_single_image() {
    assert_eq!(
        parse_image_name("title_12.jpg"),
        Some(ImageName { id: 12, title: "title".to_string(), extend_name: "jpg".to_string(), page: None })
    );
    assert_eq!(
        parse_image_name("a_b_c_9.gif"),
        Some(ImageName { id: 9, title: "a_b_c".to_string(), extend_name: "gif".to_string(), page: None })
    );
    assert_eq!(
        parse_image_name("_3.png"),
        Some(ImageName { id: 3, title: "".to_string(), extend_name: "png".to_string(), page: None })
    );
}

#[test]
fn image_name_of_a_numbered_page() {
    assert_eq!(
        parse_image_name("title_12_p0.png"),
        Some(ImageName { id: 12, title: "title".to_string(), extend_name: "png".to_string(), page: Some(0) })
    );
    assert_eq!(
        parse_image_name("夜空_の_星_345_p17.jpg"),
        Some(ImageName { id: 345, title: "夜空_の_星".to_string(), extend_name: "jpg".to_string(), page: Some(17) })
    );
}

#[test]
fn malformed_image_names_are_passed_over() {
    for name in [
        "title_12.txt",
        "title_12",
        "jpg",
        ".jpg",
        "12.jpg",
        "title.jpg",
        "title_12 (1).jpg",
        "title_12).jpg",
        "title_x.jpg",
        "12_p3.jpg",
        "title_12_p.jpg",
        "title_12_px.jpg",
        "title_x_p3.jpg",
        "title_12_page.jpg",
        "title_12.JPG",
        "title_99999999999999999999999999.jpg",
        "",
    ] {
        assert_eq!(parse_image_name(name), None, "{}", name);
    }
}

#[test]
fn shaft_catalog_has_one_entry_for_each_key() {
    let shaft = Shaft::new(&listing());
    let list = shaft.generate_manga_list(r"F:\media\ShaftImages");
    assert_eq!(list.list.len(), 3);
    let e = list.list.get("101").unwrap();
    assert_eq!(e.name, "m-sky");
    assert_eq!(e.id, "101");
    assert_eq!(e.pic, "/manga/101/single/0");
    assert_eq!(e.chapters.len(), 1);
    assert_eq!(e.chapters[0].id, "single");
    assert_eq!(e.chapters[0].name, "m-sky");
    assert_eq!(e.chapters[0].length, 3);
    assert!(list.list.get("7").is_some());
    assert!(list.list.get("55").is_some());
    assert!(list.list.get("8").is_none());
    assert!(list.list.get("0101").is_none());
}

#[test]
fn shaft_pages_are_found_by_their_number() {
    let root = r"F:\media\ShaftImages";
    let shaft = Shaft::new(&listing());
    let list = shaft.generate_manga_list(root);
    for i in 0..3usize {
        assert_eq!(
            shaft.get_pic_in_chapter(&list, root, "101", "single", i),
            Some(PageSource::File { path: format!("{}/sky_101_p{}.jpg", root, i + 1) })
        );
    }
    assert_eq!(shaft.get_pic_in_chapter(&list, root, "101", "single", 3), None);
    assert_eq!(shaft.get_pic_in_chapter(&list, root, "101", "single", usize::MAX), None);
    assert_eq!(shaft.get_pic_in_chapter(&list, root, "102", "single", 0), None);
    assert_eq!(
        shaft.get_pic_in_chapter(&list, root, "7", "single", 0),
        Some(PageSource::File { path: format!("{}/one_7.png", root) })
    );
    assert_eq!(
        shaft.get_pic_in_chapter(&list, root, "7", "single", 1),
        Some(PageSource::File { path: format!("{}/one_7.png", root) })
    );
    assert_eq!(shaft.get_pic_in_chapter(&list, root, "7", "single", 2), None);
}

#[test]
fn shaft_chapter_facts_come_from_the_scan() {
    let shaft = Shaft::new(&listing());
    let list = shaft.generate_manga_list("root");
    assert_eq!(
        shaft.get_chapter_info(&list, "root", "101", "single"),
        Some(ChapterSource::Known { info: ChapterInfo { length: 3, name: "m-sky".to_string() } })
    );
    assert_eq!(shaft.get_chapter_info(&list, "root", "1", "single"), None);
}

#[test]
fn shaft_scan_is_the_same_each_time() {
    let a = read_all_info(&listing());
    let b = read_all_info(&listing());
    assert_eq!(a, b);
}
