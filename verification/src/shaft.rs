//! The layout in which the name of a file says what it is: an image
//! `<title>_<id>.<ext>` is an item of one page, an image
//! `<title>_<id>_p<page>.<ext>` is one page of an item of many. Files named
//! otherwise are passed over.

use crate::backend::{
    entry_models, said, BackendTrait, ChapterInfo, ChapterInfoModel, ChapterPlace, ChapterSource,
    PagePlace, PageSource, WalkEntry, WalkEntryModel,
};
use crate::group::{first_seen, lemma_first_absent, lemma_first_found, lemma_first_seen, occurring};
use crate::ident::{number_id, number_key};
use crate::manga_list::{
    cover, cover_ref, ids, lemma_put_all, lemma_put_all_distinct, put_all, unique_ids,
    ChapterBasicInfo, ChapterModel, MangaInfo, MangaList, MangaModel,
};
use crate::text::{
    chars_of, lemma_decimal_injective, lemma_split_last, lemma_split_len, parse_decimal,
    parse_usize, prefix_chars, spells, split, split_chars, str_eq, string_of, suffix_chars,
};
use vstd::prelude::*;

verus! {

/// What the name of an image says: the key of its item, the title, the
/// extension, and the page number where the image is one page of many.
pub struct ImageNameModel {
    pub id: usize,
    pub title: Seq<char>,
    pub extend_name: Seq<char>,
    pub page: Option<usize>,
}

/// The parts of the name of an image.
#[derive(Debug, Clone, PartialEq, Eq)]
pub struct ImageName {
    pub id: usize,
    pub title: String,
    pub extend_name: String,
    pub page: Option<usize>,
}

impl View for ImageName {
    type V = ImageNameModel;

    open spec fn view(&self) -> ImageNameModel {
        ImageNameModel {
            id: self.id,
            title: self.title@,
            extend_name: self.extend_name@,
            page: self.page,
        }
    }
}

/// Whether `ext` is the extension of an image.
pub open spec fn image_extension(ext: Seq<char>) -> bool {
    ext == "jpg"@ || ext == "png"@ || ext == "gif"@
}

/// What the stem of an image name says, the extension being `ext`. The
/// stem is cut at `_`. A last piece that starts with `p` is a page number,
/// the piece before it is the key and a title must stand before that; any
/// other last piece is the key and a title must stand before it.
pub open spec fn stem_parts(stem: Seq<char>, ext: Seq<char>) -> Option<ImageNameModel> {
    let parts = split(stem, '_');
    let last = parts.last();
    if last.len() > 0 && last[0] == 'p' {
        if parts.len() < 3 {
            None
        } else {
            let key = parts[parts.len() - 2];
            match (parse_decimal(key), parse_decimal(last.skip(1))) {
                (Some(id), Some(page)) => Some(
                    ImageNameModel {
                        id,
                        title: stem.take(stem.len() - (last.len() + key.len() + 2)),
                        extend_name: ext,
                        page: Some(page),
                    },
                ),
                _ => None,
            }
        }
    } else {
        if parts.len() < 2 {
            None
        } else {
            match parse_decimal(last) {
                Some(id) => Some(
                    ImageNameModel {
                        id,
                        title: stem.take(stem.len() - (last.len() + 1)),
                        extend_name: ext,
                        page: None,
                    },
                ),
                None => None,
            }
        }
    }
}

/// What the file name `full` says, if it is the name of an image of this
/// layout: it ends in a dot and an image extension, and the stem before
/// the dot does not end in `)`, which marks a second copy.
pub open spec fn image_name(full: Seq<char>) -> Option<ImageNameModel> {
    let ext = split(full, '.').last();
    if !image_extension(ext) || full.len() < 4 {
        None
    } else {
        let stem = full.take(full.len() - 4);
        if stem.len() > 0 && stem.last() == ')' {
            None
        } else {
            stem_parts(stem, ext)
        }
    }
}

/// Reads the name of an image.
pub fn parse_image_name(file_name: &str) -> (r: Option<ImageName>)
    ensures
        said(r) == image_name(file_name@),
{
    let full = chars_of(file_name);
    let by_dot = split_chars(&full, '.');
    proof {
        lemma_split_len(full@, '.');
    }
    let ext = &by_dot[by_dot.len() - 1];
    if !(spells(ext, "jpg") || spells(ext, "png") || spells(ext, "gif")) {
        return None;
    }
    if full.len() < 4 {
        return None;
    }
    let stem = prefix_chars(&full, full.len() - 4);
    if stem.len() > 0 && stem[stem.len() - 1] == ')' {
        return None;
    }
    let parts = split_chars(&stem, '_');
    proof {
        lemma_split_len(stem@, '_');
    }
    let n = parts.len();
    let last = &parts[n - 1];
    if last.len() > 0 && last[0] == 'p' {
        if n < 3 {
            return None;
        }
        let key = &parts[n - 2];
        let number = suffix_chars(last, 1);
        let id = match parse_usize(key) {
            Some(id) => id,
            None => {
                return None;
            },
        };
        let page = match parse_usize(&number) {
            Some(page) => page,
            None => {
                return None;
            },
        };
        proof {
            lemma_split_last(stem@, '_');
            let cut = stem@.len() - last@.len() - 1;
            let inner = stem@.take(cut);
            lemma_split_last(inner, '_');
        }
        let title = prefix_chars(&stem, stem.len() - (last.len() + key.len() + 2));
        Some(
            ImageName {
                id,
                title: string_of(&title),
                extend_name: string_of(ext),
                page: Some(page),
            },
        )
    } else {
        if n < 2 {
            return None;
        }
        let id = match parse_usize(last) {
            Some(id) => id,
            None => {
                return None;
            },
        };
        proof {
            lemma_split_last(stem@, '_');
        }
        let title = prefix_chars(&stem, stem.len() - (last.len() + 1));
        Some(ImageName { id, title: string_of(&title), extend_name: string_of(ext), page: None })
    }
}

/// What is known of one item.
pub struct LocalModel {
    pub id: usize,
    pub name: Seq<char>,
    pub all_pages: usize,
    pub is_single: bool,
    pub extend_name: Seq<char>,
    pub full_paths: Seq<(usize, Seq<char>)>,
}

/// One item as the scan found it: its key, its name, how many images bear
/// the key, whether the first of them was a single image, the extension of
/// the first, and the paths of the images with their page numbers.
#[derive(Debug, Clone, PartialEq, Eq, Hash)]
pub struct MangaInfoLocal {
    pub id: usize,
    pub name: String,
    pub all_pages: usize,
    pub is_single: bool,
    pub extend_name: String,
    pub full_paths: Vec<(usize, String)>,
}

/// The numbered paths that `v` holds.
pub open spec fn path_models(v: Seq<(usize, String)>) -> Seq<(usize, Seq<char>)> {
    Seq::new(v.len(), |i: int| (v[i].0, v[i].1@))
}

impl View for MangaInfoLocal {
    type V = LocalModel;

    open spec fn view(&self) -> LocalModel {
        LocalModel {
            id: self.id,
            name: self.name@,
            all_pages: self.all_pages,
            is_single: self.is_single,
            extend_name: self.extend_name@,
            full_paths: path_models(self.full_paths@),
        }
    }
}

/// The items that `v` holds.
pub open spec fn local_models(v: Seq<MangaInfoLocal>) -> Seq<LocalModel> {
    Seq::new(v.len(), |i: int| v[i]@)
}

/// The keys of the items of `s`, in order.
pub open spec fn keys(s: Seq<LocalModel>) -> Seq<usize> {
    Seq::new(s.len(), |i: int| s[i].id)
}

/// The page numbers of `s`, in order.
pub open spec fn page_numbers(s: Seq<(usize, Seq<char>)>) -> Seq<usize> {
    Seq::new(s.len(), |i: int| s[i].0)
}

/// The item that the first image with a key makes: named `s-` and the
/// title for a single image, `m-` and the title for a page.
pub open spec fn first_of(n: ImageNameModel, path: Seq<char>) -> LocalModel {
    LocalModel {
        id: n.id,
        name: if n.page is None {
            "s-"@ + n.title
        } else {
            "m-"@ + n.title
        },
        all_pages: 1,
        is_single: n.page is None,
        extend_name: n.extend_name,
        full_paths: seq![
            (
                match n.page {
                    Some(p) => p,
                    None => 0,
                },
                path,
            ),
        ],
    }
}

/// The item `g` after one more image with its key: one more is counted,
/// and the path of a page is kept with its number.
pub open spec fn one_more(g: LocalModel, n: ImageNameModel, path: Seq<char>) -> LocalModel {
    LocalModel {
        id: g.id,
        name: g.name,
        all_pages: (g.all_pages + 1) as usize,
        is_single: g.is_single,
        extend_name: g.extend_name,
        full_paths: match n.page {
            Some(p) => g.full_paths.push((p, path)),
            None => g.full_paths,
        },
    }
}

/// The items `groups` after the directory entry `e`. Only a regular file
/// with the name of an image counts.
pub open spec fn with_entry(groups: Seq<LocalModel>, e: WalkEntryModel) -> Seq<LocalModel> {
    if !e.is_file {
        groups
    } else {
        match image_name(e.file_name) {
            None => groups,
            Some(n) => match keys(groups).index_of_first(n.id) {
                Some(k) => groups.update(k, one_more(groups[k], n, e.path)),
                None => groups.push(first_of(n, e.path)),
            },
        }
    }
}

/// The items that a listing holds, in the order in which their keys first
/// occur.
pub open spec fn scan(entries: Seq<WalkEntryModel>) -> Seq<LocalModel>
    decreases entries.len(),
{
    if entries.len() == 0 {
        Seq::<LocalModel>::empty()
    } else {
        with_entry(scan(entries.drop_last()), entries.last())
    }
}

/// The key of the item that a directory entry is an image of, if it is
/// one.
pub open spec fn item_key(e: WalkEntryModel) -> Option<usize> {
    if e.is_file {
        match image_name(e.file_name) {
            Some(n) => Some(n.id),
            None => None,
        }
    } else {
        None
    }
}

/// For each entry of a listing, the key of the item that it is an image
/// of.
pub open spec fn item_keys(entries: Seq<WalkEntryModel>) -> Seq<Option<usize>> {
    Seq::new(entries.len(), |i: int| item_key(entries[i]))
}

/// The items of a scan are the items that the images of the listing name,
/// each once, in the order in which they first occur; every item keeps
/// the path of an image, and counts at least one image and no more than
/// the listing has entries.
pub proof fn lemma_scan(entries: Seq<WalkEntryModel>)
    requires
        entries.len() <= usize::MAX,
    ensures
        keys(scan(entries)) == first_seen(item_keys(entries)),
        forall|k: int|
            0 <= k < scan(entries).len() ==> {
                &&& 1 <= (#[trigger] scan(entries)[k]).all_pages <= entries.len()
                &&& scan(entries)[k].full_paths.len() >= 1
            },
    decreases entries.len(),
{
    if entries.len() > 0 {
        let rest = entries.drop_last();
        lemma_scan(rest);
        assert(item_keys(entries).drop_last() =~= item_keys(rest));
        if let Some(item) = item_key(entries.last()) {
            keys(scan(rest)).index_of_first_ensures(item);
        }
    }
}

fn find_local(items: &Vec<MangaInfoLocal>, id: usize) -> (r: Option<usize>)
    ensures
        match r {
            Some(k) => keys(local_models(items@)).index_of_first(id) == Some(k as int) && k
                < items.len(),
            None => keys(local_models(items@)).index_of_first(id) is None,
        },
{
    let ghost ks = keys(local_models(items@));
    let mut k: usize = 0;
    while k < items.len()
        invariant
            k <= items.len(),
            ks == keys(local_models(items@)),
            forall|j: int| 0 <= j < k ==> ks[j] != id,
        decreases items.len() - k,
    {
        if items[k].id == id {
            proof {
                lemma_first_found(ks, id, k as int);
            }
            return Some(k);
        }
        k += 1;
    }
    proof {
        lemma_first_absent(ks, id);
    }
    None
}

/// Gathers the items of a listing.
pub fn read_all_info(entries: &Vec<WalkEntry>) -> (out: Vec<MangaInfoLocal>)
    ensures
        local_models(out@) == scan(entry_models(entries@)),
{
    let ghost all = entry_models(entries@);
    let mut out: Vec<MangaInfoLocal> = Vec::new();
    let mut i: usize = 0;
    while i < entries.len()
        invariant
            i <= entries.len(),
            all == entry_models(entries@),
            local_models(out@) == scan(all.take(i as int)),
        decreases entries.len() - i,
    {
        let e = &entries[i];
        let ghost before = local_models(out@);
        proof {
            assert(all.take(i + 1).drop_last() =~= all.take(i as int));
            lemma_scan(all.take(i as int));
        }
        if e.is_file {
            match parse_image_name(e.file_name.as_str()) {
                Some(n) => {
                    let ghost said_name = n@;
                    match find_local(&out, n.id) {
                        Some(k) => {
                            assert(before[k as int].all_pages <= i);
                            out[k].all_pages = out[k].all_pages + 1;
                            match n.page {
                                Some(p) => {
                                    out[k].full_paths.push((p, e.path.clone()));
                                    assert(path_models(out@[k as int].full_paths@)
                                        =~= before[k as int].full_paths.push((p, e@.path)));
                                },
                                None => {},
                            }
                        },
                        None => {
                            let mut name = if n.page.is_none() {
                                String::from_str("s-")
                            } else {
                                String::from_str("m-")
                            };
                            name.append(n.title.as_str());
                            let page = match n.page {
                                Some(p) => p,
                                None => 0,
                            };
                            let mut full_paths: Vec<(usize, String)> = Vec::new();
                            full_paths.push((page, e.path.clone()));
                            let item = MangaInfoLocal {
                                id: n.id,
                                name,
                                all_pages: 1,
                                is_single: n.page.is_none(),
                                extend_name: n.extend_name,
                                full_paths,
                            };
                            assert(item@.full_paths =~= first_of(said_name, e@.path).full_paths);
                            out.push(item);
                        },
                    }
                },
                None => {},
            }
        }
        i += 1;
    }
    assert(all.take(i as int) =~= all);
    out
}

/// The catalog entry of the item `g`: found under the decimal rendering of
/// its key, with one chapter `single` that holds all its pages.
pub open spec fn entry_of(g: LocalModel) -> MangaModel {
    MangaModel {
        name: g.name,
        pic: cover(number_key(g.id), "single"@),
        id: number_key(g.id),
        chapters: seq![ChapterModel { id: "single"@, name: g.name, length: g.all_pages }],
    }
}

/// The catalog entries of the items `gs`, in order.
pub open spec fn entries_of(gs: Seq<LocalModel>) -> Seq<MangaModel> {
    Seq::new(gs.len(), |i: int| entry_of(gs[i]))
}

/// The identifiers under which the items of `s` are found, in order.
pub open spec fn key_texts(s: Seq<LocalModel>) -> Seq<Seq<char>> {
    Seq::new(s.len(), |i: int| number_key(s[i].id))
}

/// The item of `s` that is found under `manga_id`.
pub open spec fn local_by_id(s: Seq<LocalModel>, manga_id: Seq<char>) -> Option<LocalModel> {
    match key_texts(s).index_of_first(manga_id) {
        Some(k) => Some(s[k]),
        None => None,
    }
}

/// The path of page `pic_id` of the item `g`: none from the count of the
/// item on; below it, the one image of a single item, and for an item of
/// many the first image whose page number is one more than `pic_id`.
pub open spec fn page_path(g: LocalModel, pic_id: usize) -> Option<Seq<char>> {
    if pic_id >= g.all_pages {
        None
    } else if g.is_single {
        if g.full_paths.len() > 0 {
            Some(g.full_paths[0].1)
        } else {
            None
        }
    } else {
        match page_numbers(g.full_paths).index_of_first((pic_id + 1) as usize) {
            Some(j) => Some(g.full_paths[j].1),
            None => None,
        }
    }
}

/// The layout with what its scan found.
#[derive(Debug, Clone)]
pub struct Shaft {
    pub info: Vec<MangaInfoLocal>,
}

impl Shaft {
    /// Scans a listing of the storage root.
    pub fn new(entries: &Vec<WalkEntry>) -> (r: Shaft)
        ensures
            local_models(r.info@) == scan(entry_models(entries@)),
    {
        Shaft { info: read_all_info(entries) }
    }

    fn find(&self, manga_id: &str) -> (r: Option<&MangaInfoLocal>)
        ensures
            said(r) == local_by_id(local_models(self.info@), manga_id@),
    {
        let ghost texts = key_texts(local_models(self.info@));
        let mut k: usize = 0;
        while k < self.info.len()
            invariant
                k <= self.info.len(),
                texts == key_texts(local_models(self.info@)),
                forall|j: int| 0 <= j < k ==> texts[j] != manga_id@,
            decreases self.info.len() - k,
        {
            let text = number_id(self.info[k].id);
            if str_eq(text.as_str(), manga_id) {
                proof {
                    lemma_first_found(texts, manga_id@, k as int);
                }
                return Some(&self.info[k]);
            }
            k += 1;
        }
        proof {
            lemma_first_absent(texts, manga_id@);
        }
        None
    }
}

fn find_page(paths: &Vec<(usize, String)>, number: usize) -> (r: Option<usize>)
    ensures
        match r {
            Some(j) => page_numbers(path_models(paths@)).index_of_first(number) == Some(j as int)
                && j < paths.len(),
            None => page_numbers(path_models(paths@)).index_of_first(number) is None,
        },
{
    let ghost numbers = page_numbers(path_models(paths@));
    let mut j: usize = 0;
    while j < paths.len()
        invariant
            j <= paths.len(),
            numbers == page_numbers(path_models(paths@)),
            forall|m: int| 0 <= m < j ==> numbers[m] != number,
        decreases paths.len() - j,
    {
        if paths[j].0 == number {
            proof {
                lemma_first_found(numbers, number, j as int);
            }
            return Some(j);
        }
        j += 1;
    }
    proof {
        lemma_first_absent(numbers, number);
    }
    None
}

impl BackendTrait for Shaft {
    open spec fn wf(&self) -> bool {
        true
    }

    open spec fn catalog(&self) -> Seq<MangaModel> {
        put_all(Seq::<MangaModel>::empty(), entries_of(local_models(self.info@)))
    }

    open spec fn page(
        &self,
        list: Seq<MangaModel>,
        base_path: Seq<char>,
        manga_id: Seq<char>,
        chapter: Seq<char>,
        pic_id: usize,
    ) -> Option<PagePlace> {
        match local_by_id(local_models(self.info@), manga_id) {
            Some(g) => match page_path(g, pic_id) {
                Some(path) => Some(PagePlace::File { path }),
                None => None,
            },
            None => None,
        }
    }

    open spec fn chapter(
        &self,
        list: Seq<MangaModel>,
        base_path: Seq<char>,
        manga_id: Seq<char>,
        chapter: Seq<char>,
    ) -> Option<ChapterPlace> {
        match local_by_id(local_models(self.info@), manga_id) {
            Some(g) => Some(
                ChapterPlace::Known {
                    info: ChapterInfoModel { length: g.all_pages, name: g.name },
                },
            ),
            None => None,
        }
    }

    fn generate_manga_list(&self, path: &str) -> (list: MangaList) {
        let ghost items = entries_of(local_models(self.info@));
        let mut list = MangaList::new(path);
        let mut i: usize = 0;
        while i < self.info.len()
            invariant
                i <= self.info.len(),
                items == entries_of(local_models(self.info@)),
                list.list@ == put_all(Seq::<MangaModel>::empty(), items.take(i as int)),
                list.list.wf(),
                list.path@ == path@,
                list.all_basic_info is None,
            decreases self.info.len() - i,
        {
            let g = &self.info[i];
            let id = number_id(g.id);
            let pic = cover_ref(id.as_str(), "single");
            let mut chapters: Vec<ChapterBasicInfo> = Vec::new();
            chapters.push(
                ChapterBasicInfo {
                    id: String::from_str("single"),
                    name: g.name.clone(),
                    length: g.all_pages,
                },
            );
            let info = MangaInfo { name: g.name.clone(), pic, id, chapters };
            proof {
                assert(info@.chapters =~= entry_of(g@).chapters);
                assert(items.take(i + 1).drop_last() =~= items.take(i as int));
            }
            list.list.insert(info);
            i += 1;
        }
        assert(items.take(i as int) =~= items);
        list
    }

    fn get_pic_in_chapter(
        &self,
        list: &MangaList,
        base_path: &str,
        manga_id: &str,
        chapter: &str,
        pic_id: usize,
    ) -> (r: Option<PageSource>) {
        let g = match self.find(manga_id) {
            Some(g) => g,
            None => {
                return None;
            },
        };
        if pic_id >= g.all_pages {
            return None;
        }
        if g.is_single {
            if g.full_paths.len() > 0 {
                Some(PageSource::File { path: g.full_paths[0].1.clone() })
            } else {
                None
            }
        } else {
            match find_page(&g.full_paths, pic_id + 1) {
                Some(j) => Some(PageSource::File { path: g.full_paths[j].1.clone() }),
                None => None,
            }
        }
    }

    fn get_chapter_info(
        &self,
        list: &MangaList,
        base_path: &str,
        manga_id: &str,
        chapter: &str,
    ) -> (r: Option<ChapterSource>) {
        match self.find(manga_id) {
            Some(g) => Some(
                ChapterSource::Known {
                    info: ChapterInfo { length: g.all_pages, name: g.name.clone() },
                },
            ),
            None => None,
        }
    }
}

/// The catalog of a scan has one entry for each item of the listing, in
/// the order in which the items first occur; no two entries share an
/// identifier; the identifier of each entry is the decimal rendering of
/// the key of its item; and the cover of each entry is page 0 of its one
/// chapter.
pub proof fn lemma_catalog(s: Shaft, entries: Seq<WalkEntryModel>)
    requires
        local_models(s.info@) == scan(entries),
        entries.len() <= usize::MAX,
    ensures
        s.catalog() == entries_of(scan(entries)),
        s.catalog().len() == occurring(item_keys(entries)).len(),
        unique_ids(s.catalog()),
        forall|k: int|
            0 <= k < s.catalog().len() ==> {
                &&& (#[trigger] s.catalog()[k]).id == number_key(scan(entries)[k].id)
                &&& s.catalog()[k].chapters.len() == 1
                &&& s.catalog()[k].pic == cover(s.catalog()[k].id, s.catalog()[k].chapters[0].id)
            },
{
    lemma_scan(entries);
    lemma_first_seen(item_keys(entries));
    let groups = scan(entries);
    let items = entries_of(groups);
    assert forall|a: int, b: int| 0 <= a < b < items.len() implies ids(items)[a]
        != ids(items)[b] by {
        assert(keys(groups)[a] != keys(groups)[b]);
        if number_key(groups[a].id) == number_key(groups[b].id) {
            lemma_decimal_injective(groups[a].id as nat, groups[b].id as nat);
        }
    }
    lemma_put_all_distinct(items);
    lemma_put_all(items);
}

/// Two scans of the same listing give the same catalog, identifier for
/// identifier.
pub proof fn lemma_rescan(a: Shaft, b: Shaft, entries: Seq<WalkEntryModel>)
    requires
        local_models(a.info@) == scan(entries),
        local_models(b.info@) == scan(entries),
    ensures
        a.catalog() == b.catalog(),
        ids(a.catalog()) == ids(b.catalog()),
{
}

/// A page is found only in a chapter that is there, and only below its
/// number of pages; every page below it is found where the item is a
/// single image.
pub proof fn lemma_pages(
    s: Shaft,
    entries: Seq<WalkEntryModel>,
    list: Seq<MangaModel>,
    base_path: Seq<char>,
    manga_id: Seq<char>,
    chapter: Seq<char>,
    pic_id: usize,
)
    requires
        local_models(s.info@) == scan(entries),
        entries.len() <= usize::MAX,
    ensures
        match s.chapter(list, base_path, manga_id, chapter) {
            Some(ChapterPlace::Known { info }) => {
                &&& pic_id >= info.length ==> s.page(list, base_path, manga_id, chapter, pic_id)
                    is None
                &&& pic_id < info.length && local_by_id(scan(entries), manga_id).unwrap().is_single
                    ==> s.page(list, base_path, manga_id, chapter, pic_id) is Some
            },
            _ => s.page(list, base_path, manga_id, chapter, pic_id) is None,
        },
{
    lemma_scan(entries);
    key_texts(scan(entries)).index_of_first_ensures(manga_id);
}

} // verus!
