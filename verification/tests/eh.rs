use manga_server::backend::{BackendTrait, ChapterInfo, ChapterSource, PageSource, WalkEntry};
use manga_server::eh::{place_of, read_all_infos, Eh};

fn hash(name: &str) -> String {
    format!("{:?}", md5::compute(name))
}

fn at(depth: usize, is_file: bool, path: &str) -> WalkEntry {
    let file_name = path.rsplit(|c| c == '/' || c == '\\').next().unwrap().to_string();
    WalkEntry { depth, is_file, file_name, path: path.to_string() }
}

fn listing() -> Vec<WalkEntry> {
    vec![
        at(0, false, r"H:\g\Books\manga\eh"),
        at(1, false, r"H:\g\Books\manga\eh\Gallery B"),
        at(2, true, r"H:\g\Books\manga\eh\Gallery B\10.png"),
        at(2, true, r"H:\g\Books\manga\eh\Gallery B\2.jpg"),
        at(2, true, r"H:\g\Books\manga\eh\Gallery B\info.txt"),
        at(2, true, r"H:\g\Books\manga\eh\Gallery B\1.jpg"),
        at(2, true, r"H:\g\Books\manga\eh\Gallery B\2.jpg"),
        at(2, true, r"H:\g\Books\manga\eh\Gallery B\cover.gif"),
        at(2, true, r"H:\g\Books\manga\eh\Gallery B\noext"),
        at(3, true, r"H:\g\Books\manga\eh\Gallery B\sub\3.jpg"),
        at(1, false, "H:/g/Books/manga/eh/Gallery A"),
        at(2, true, "H:/g/Books/manga/eh/Gallery A/b.jpg"),
        at(2, true, "H:/g/Books/manga/eh/Gallery A/a.png"),
        at(1, true, "H:/g/Books/manga/eh/loose.jpg"),
        at(1, false, "H:/g/Books/manga/eh/Texts"),
        at(2, true, "H:/g/Books/manga/eh/Texts/a.txt"),
    ]
}

#[test]
fn eh_t_read_all_infos() {
    let found = read_all_infos(&listing());
    assert_eq!(found.len(), 2);
    assert_eq!(found[0].name, "Gallery B");
    assert_eq!(found[0].pictures, vec!["1.jpg", "10.png", "2.jpg"]);
    assert_eq!(found[1].name, "Gallery A");
    assert_eq!(found[1].pictures, vec!["a.png", "b.jpg"]);
}

#[test]
fn eh_t_impl_backend() {
    let backend = Eh::new(&listing());
    let list = backend.generate_manga_list(r"H:\g\Books\manga\eh");
    assert_eq!(list.list.len(), 2);
    let id = hash("Gallery B");
    let e = list.list.get(&id).unwrap();
    assert_eq!(e.name, "Gallery B");
    assert_eq!(e.id, id);
    assert_eq!(e.pic, format!("/manga/{}/single/0", id));
    assert_eq!(e.chapters.len(), 1);
    assert_eq!(e.chapters[0].id, "single");
    assert_eq!(e.chapters[0].name, "single");
    assert_eq!(e.chapters[0].length, 3);
    assert_eq!(list.list.get(&hash("Gallery A")).unwrap().chapters[0].length, 2);
    assert!(list.list.get(&hash("Texts")).is_none());
}

#[test]
fn flat_pictures_are_recognized_sorted_and_counted_once() {
    let dir = "root/item";
    let mut entries = vec![at(0, false, "root"), at(1, false, dir)];
    for name in ["c.png", "a.jpg", "notes.md", "b.png", "a.jpg", "thumbs.db", "c.png", "d.jpeg", "A.jpg", "e.PNG"] {
        entries.push(at(2, true, &format!("{}/{}", dir, name)));
    }
    let found = read_all_infos(&entries);
    assert_eq!(found.len(), 1);
    assert_eq!(found[0].name, "item");
    assert_eq!(found[0].pictures, vec!["A.jpg", "a.jpg", "b.png", "c.png"]);
}

#[test]
fn flat_place_reads_the_directory_above_an_image() {
    assert_eq!(place_of(&at(2, true, "root/item/a.jpg")), Some("item".to_string()));
    assert_eq!(place_of(&at(2, false, "root/item/a.png")), Some("item".to_string()));
    assert_eq!(place_of(&at(2, true, "root/item/a.gif")), None);
    assert_eq!(place_of(&at(1, true, "root/a.jpg")), None);
    assert_eq!(place_of(&at(3, true, "root/item/x/a.jpg")), None);
    assert_eq!(place_of(&at(2, true, "jpg")), None);
}

#[test]
fn flat_pages_are_the_pictures_in_order() {
    let root = "H:/g/Books/manga/eh";
    let backend = Eh::new(&listing());
    let list = backend.generate_manga_list(root);
    let id = hash("Gallery B");
    let wanted = ["1.jpg", "10.png", "2.jpg"];
    for i in 0..3usize {
        assert_eq!(
            backend.get_pic_in_chapter(&list, root, &id, "single", i),
            Some(PageSource::File { path: format!("{}/Gallery B/{}", root, wanted[i]) })
        );
    }
    assert_eq!(backend.get_pic_in_chapter(&list, root, &id, "single", 3), None);
    assert_eq!(backend.get_pic_in_chapter(&list, root, &id, "single", usize::MAX), None);
    assert_eq!(backend.get_pic_in_chapter(&list, root, "Gallery B", "single", 0), None);
}

#[test]
fn flat_chapter_facts_name_the_single_chapter() {
    let backend = Eh::new(&listing());
    let list = backend.generate_manga_list("root");
    assert_eq!(
        backend.get_chapter_info(&list, "root", &hash("Gallery A"), "anything"),
        Some(ChapterSource::Known { info: ChapterInfo { length: 2, name: "single".to_string() } })
    );
    assert_eq!(backend.get_chapter_info(&list, "root", "nobody", "single"), None);
}

#[test]
fn flat_scan_is_the_same_each_time() {
    assert_eq!(read_all_infos(&listing()), read_all_infos(&listing()));
}

#[test]
fn flat_identifiers_have_a_fixed_width() {
    let backend = Eh::new(&listing());
    assert!(backend.names_told_apart());
    let list = backend.generate_manga_list("root");
    assert_eq!(list.list.len(), 2);
    for i in 0..list.list.len() {
        assert_eq!(list.list.entry(i).unwrap().id.chars().count(), 32);
    }
}
