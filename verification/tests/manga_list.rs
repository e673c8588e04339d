use manga_server::manga_list::{
    cover_ref, Backend, ChapterBasicInfo, Config, MangaBasicInfo, MangaInfo, MangaList, MangaMap,
};

fn chapter(id: &str, length: usize) -> ChapterBasicInfo {
    ChapterBasicInfo { id: id.to_string(), name: format!("name of {}", id), length }
}

fn item(id: &str, name: &str, chapters: Vec<ChapterBasicInfo>) -> MangaInfo {
    MangaInfo { name: name.to_string(), pic: format!("/manga/{}/x/0", id), id: id.to_string(), chapters }
}

#[test]
fn new_catalog_is_empty() {
    let list = MangaList::new("/srv/manga");
    assert_eq!(list.path, "/srv/manga");
    assert_eq!(list.list.len(), 0);
    assert!(list.all_basic_info.is_none());
}

#[test]
fn map_finds_entries_by_identifier() {
    let mut m = MangaMap::new();
    assert_eq!(m.insert(item("a", "A", vec![])), None);
    assert_eq!(m.insert(item("b", "B", vec![chapter("1", 3)])), None);
    assert_eq!(m.len(), 2);
    assert_eq!(m.get("a").unwrap().name, "A");
    assert_eq!(m.get("b").unwrap().name, "B");
    assert!(m.get("c").is_none());
    assert!(m.get("").is_none());
    assert!(m.contains_key("a"));
    assert!(!m.contains_key("A"));
    assert_eq!(m.entry(0).unwrap().id, "a");
    assert_eq!(m.entry(1).unwrap().id, "b");
    assert!(m.entry(2).is_none());
}

#[test]
fn map_replaces_an_entry_with_the_same_identifier() {
    let mut m = MangaMap::new();
    m.insert(item("a", "first", vec![]));
    m.insert(item("b", "B", vec![]));
    m.insert(item("c", "C", vec![]));
    let old = m.insert(item("a", "second", vec![]));
    assert_eq!(old.unwrap().name, "first");
    assert_eq!(m.len(), 3);
    assert_eq!(m.get("a").unwrap().name, "second");
    assert_eq!(m.entry(0).unwrap().name, "second");
    assert_eq!(m.entry(1).unwrap().id, "b");
    assert_eq!(m.entry(2).unwrap().id, "c");
}

#[test]
fn listing_has_one_line_for_each_entry() {
    let mut list = MangaList::new("root");
    list.get_list_mut().insert(item("a", "A", vec![chapter("c1", 3), chapter("c2", 4)]));
    list.get_list_mut().insert(item("b", "B", vec![]));
    list.collect_info();
    let lines = list.all_basic_info.clone().unwrap();
    assert_eq!(
        lines,
        vec![
            MangaBasicInfo {
                name: "A".to_string(),
                pic: "/manga/a/x/0".to_string(),
                id: "a".to_string(),
                first: "c1".to_string(),
            },
            MangaBasicInfo {
                name: "B".to_string(),
                pic: "/manga/b/x/0".to_string(),
                id: "b".to_string(),
                first: "".to_string(),
            },
        ]
    );
}

#[test]
fn listing_is_built_once() {
    let mut list = MangaList::new("root");
    list.get_list_mut().insert(item("a", "A", vec![chapter("c1", 3)]));
    let first = list.all_info();
    assert_eq!(first.len(), 1);
    list.get_list_mut().insert(item("b", "B", vec![]));
    list.collect_info();
    let second = list.all_info();
    let third = list.all_info();
    assert_eq!(first, second);
    assert_eq!(second, third);
    assert_eq!(list.list.len(), 2);
}

#[test]
fn listing_of_an_empty_catalog_is_empty() {
    let mut list = MangaList::new("root");
    assert_eq!(list.all_info(), Vec::<MangaBasicInfo>::new());
    assert_eq!(list.all_basic_info, Some(Vec::new()));
}

#[test]
fn chapter_is_found_by_identifier() {
    let m = item("a", "A", vec![chapter("c1", 3), chapter("c2", 4), chapter("c1", 9)]);
    assert_eq!(m.chapter("c2").unwrap().length, 4);
    assert_eq!(m.chapter("c1").unwrap().length, 3);
    assert!(m.chapter("c3").is_none());
    assert_eq!(m.summary().first, "c1");
}

#[test]
fn cover_points_at_page_zero() {
    assert_eq!(cover_ref("abc", "single"), "/manga/abc/single/0");
    assert_eq!(cover_ref("12", "3"), "/manga/12/3/0");
}

#[test]
fn backend_names() {
    assert_eq!(Backend::from_name("dmzj"), Some(Backend::DMZJ));
    assert_eq!(Backend::from_name("copy_manga"), Some(Backend::CopyManga));
    assert_eq!(Backend::from_name("eh"), Some(Backend::Eh));
    assert_eq!(Backend::from_name("DMZJ"), None);
    assert_eq!(Backend::from_name("shaft"), None);
    assert_eq!(Backend::from_name(""), None);
}

#[test]
fn config_needs_a_known_backend() {
    let c = Config::new(8080, "eh").unwrap();
    assert_eq!(c.port, 8080);
    assert_eq!(c.backend, Backend::Eh);
    assert!(Config::new(8080, "ehh").is_none());
}

#[test]
fn duplicates_say_the_same() {
    let m = item("a", "A", vec![chapter("c1", 3), chapter("c2", 4)]);
    assert_eq!(m.duplicate(), m);
    assert_eq!(m.chapters[1].duplicate(), m.chapters[1]);
    assert_eq!(m.summary().duplicate(), m.summary());
}
