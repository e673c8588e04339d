//! The layout of a tree: one directory for each item, in it one directory
//! for each chapter, in it the pages as files numbered from `001.jpg` on.

use crate::backend::{
    entry_models, BackendTrait, ChapterInfo, ChapterInfoModel, ChapterPlace, ChapterSource,
    PagePlace, PageSource, WalkEntry, WalkEntryModel,
};
use crate::group::{first_seen, lemma_first_absent, lemma_first_found, lemma_first_seen, occurring};
use crate::ident::{name_id, name_key, names_told_apart, told_apart};
use crate::manga_list::{
    chapter_ids, chapter_ids_have_width, chapter_models, cover, cover_ref, ids, ids_have_width,
    lemma_put_all, lemma_put_all_distinct, lemma_put_entries, lookup, lookup_chapter, put_all,
    unique_ids, ChapterBasicInfo, ChapterModel, MangaInfo, MangaList, MangaModel,
};
use crate::order::{
    lemma_lex_total, lemma_sort_len, lemma_sorted_distinct, lex_order, names, sort_names,
};
use crate::text::{components, decimal, padded3, padded3_string, path_components, str_eq, string_of};
use vstd::prelude::*;
use vstd::relations::sorted_by;

verus! {

/// What is known of one chapter directory: how many entries lie in it.
#[derive(Debug, Clone, Copy, PartialEq, Eq, Structural)]
pub struct ChapterBasicInfoLocal {
    pub length: usize,
}

/// What is known of one item: its name, and its chapters by name with the
/// number of entries in each.
pub struct TreeGroupModel {
    pub name: Seq<char>,
    pub chapters: Seq<(Seq<char>, usize)>,
}

/// One item as the scan found it: the name of its directory, and the
/// names of its chapter directories with the number of entries in each.
#[derive(Debug, Clone, PartialEq, Eq)]
pub struct MangaInfoLocal {
    pub name: String,
    pub chapters: Vec<(String, ChapterBasicInfoLocal)>,
}

/// The counted chapters that `v` holds.
pub open spec fn counted_chapters(v: Seq<(String, ChapterBasicInfoLocal)>) -> Seq<
    (Seq<char>, usize),
> {
    Seq::new(v.len(), |i: int| (v[i].0@, v[i].1.length))
}

impl View for MangaInfoLocal {
    type V = TreeGroupModel;

    open spec fn view(&self) -> TreeGroupModel {
        TreeGroupModel { name: self.name@, chapters: counted_chapters(self.chapters@) }
    }
}

/// The items that `v` holds.
pub open spec fn group_models(v: Seq<MangaInfoLocal>) -> Seq<TreeGroupModel> {
    Seq::new(v.len(), |i: int| v[i]@)
}

/// The names of the items of `s`, in order.
pub open spec fn group_names(s: Seq<TreeGroupModel>) -> Seq<Seq<char>> {
    Seq::new(s.len(), |i: int| s[i].name)
}

/// The names of the chapters of `s`, in order.
pub open spec fn chapter_names(s: Seq<(Seq<char>, usize)>) -> Seq<Seq<char>> {
    Seq::new(s.len(), |i: int| s[i].0)
}

/// The item and the chapter that a directory entry belongs to: an entry at
/// depth 3 lies in the chapter named by the component before its last, of
/// the item named by the component before that.
pub open spec fn tree_place(e: WalkEntryModel) -> Option<(Seq<char>, Seq<char>)> {
    let n = components(e.path);
    if e.depth == 3 && n.len() >= 3 {
        Some((n[n.len() - 3], n[n.len() - 2]))
    } else {
        None
    }
}

/// The chapters `chapters` after one more entry in the chapter `chapter`.
pub open spec fn counted_in(chapters: Seq<(Seq<char>, usize)>, chapter: Seq<char>) -> Seq<
    (Seq<char>, usize),
> {
    match chapter_names(chapters).index_of_first(chapter) {
        Some(j) => chapters.update(j, (chapter, (chapters[j].1 + 1) as usize)),
        None => chapters.push((chapter, 1)),
    }
}

/// The items `groups` after the directory entry `e`.
pub open spec fn with_page(groups: Seq<TreeGroupModel>, e: WalkEntryModel) -> Seq<
    TreeGroupModel,
> {
    match tree_place(e) {
        None => groups,
        Some((item, chapter)) => match group_names(groups).index_of_first(item) {
            Some(k) => groups.update(
                k,
                TreeGroupModel { name: item, chapters: counted_in(groups[k].chapters, chapter) },
            ),
            None => groups.push(TreeGroupModel { name: item, chapters: seq![(chapter, 1)] }),
        },
    }
}

/// The items that a listing holds, in the order in which their names first
/// occur, each with its chapters in the order in which their names first
/// occur.
pub open spec fn scan(entries: Seq<WalkEntryModel>) -> Seq<TreeGroupModel>
    decreases entries.len(),
{
    if entries.len() == 0 {
        Seq::<TreeGroupModel>::empty()
    } else {
        with_page(scan(entries.drop_last()), entries.last())
    }
}

/// What a scan never breaks: items differ in name and have a chapter each,
/// the chapters of an item differ in name, and no chapter counts more than
/// `n` entries.
pub open spec fn sound(groups: Seq<TreeGroupModel>, n: int) -> bool {
    &&& group_names(groups).no_duplicates()
    &&& forall|k: int|
        0 <= k < groups.len() ==> {
            &&& (#[trigger] groups[k]).chapters.len() >= 1
            &&& chapter_names(groups[k].chapters).no_duplicates()
        }
    &&& forall|k: int, j: int|
        0 <= k < groups.len() && 0 <= j < groups[k].chapters.len() ==> 1 <= (
        #[trigger] groups[k].chapters[j]).1 <= n
}

/// Counting one more entry keeps the chapters of an item apart.
pub proof fn lemma_counted_in(chapters: Seq<(Seq<char>, usize)>, chapter: Seq<char>, n: int)
    requires
        chapter_names(chapters).no_duplicates(),
        forall|j: int| 0 <= j < chapters.len() ==> 1 <= (#[trigger] chapters[j]).1 <= n,
        0 <= n < usize::MAX,
    ensures
        chapter_names(counted_in(chapters, chapter)).no_duplicates(),
        counted_in(chapters, chapter).len() >= 1,
        forall|j: int|
            0 <= j < counted_in(chapters, chapter).len() ==> 1 <= (#[trigger] counted_in(
                chapters,
                chapter,
            )[j]).1 <= n + 1,
{
    let now = counted_in(chapters, chapter);
    let ns = chapter_names(chapters);
    ns.index_of_first_ensures(chapter);
    match ns.index_of_first(chapter) {
        Some(j) => {
            assert(chapter_names(now) =~= ns);
        },
        None => {
            assert(chapter_names(now) =~= ns.push(chapter));
        },
    }
}

/// The name of the item that a directory entry belongs to, if it belongs
/// to one.
pub open spec fn item_name(e: WalkEntryModel) -> Option<Seq<char>> {
    match tree_place(e) {
        Some((item, chapter)) => Some(item),
        None => None,
    }
}

/// For each entry of a listing, the name of the item that it belongs to.
pub open spec fn item_names(entries: Seq<WalkEntryModel>) -> Seq<Option<Seq<char>>> {
    Seq::new(entries.len(), |i: int| item_name(entries[i]))
}

/// The items of a scan are the items that the entries of the listing
/// belong to, each once, in the order in which they first occur; and a
/// scan is sound.
pub proof fn lemma_scan(entries: Seq<WalkEntryModel>)
    requires
        entries.len() <= usize::MAX,
    ensures
        group_names(scan(entries)) == first_seen(item_names(entries)),
        sound(scan(entries), entries.len() as int),
    decreases entries.len(),
{
    let now = scan(entries);
    let n = entries.len() as int;
    lemma_first_seen(item_names(entries));
    if entries.len() > 0 {
        let rest = entries.drop_last();
        let e = entries.last();
        let before = scan(rest);
        lemma_scan(rest);
        assert(item_names(entries).drop_last() =~= item_names(rest));
        if let Some((item, chapter)) = tree_place(e) {
            let ns = group_names(before);
            ns.index_of_first_ensures(item);
            match ns.index_of_first(item) {
                Some(k) => {
                    lemma_counted_in(before[k].chapters, chapter, n - 1);
                    assert(group_names(now) =~= ns);
                },
                None => {
                    assert(group_names(now) =~= ns.push(item));
                },
            }
        }
    }
}

fn find_group(groups: &Vec<MangaInfoLocal>, name: &str) -> (r: Option<usize>)
    ensures
        match r {
            Some(k) => group_names(group_models(groups@)).index_of_first(name@) == Some(k as int)
                && k < groups.len(),
            None => group_names(group_models(groups@)).index_of_first(name@) is None,
        },
{
    let ghost ns = group_names(group_models(groups@));
    let mut k: usize = 0;
    while k < groups.len()
        invariant
            k <= groups.len(),
            ns == group_names(group_models(groups@)),
            forall|j: int| 0 <= j < k ==> ns[j] != name@,
        decreases groups.len() - k,
    {
        if str_eq(groups[k].name.as_str(), name) {
            proof {
                lemma_first_found(ns, name@, k as int);
            }
            return Some(k);
        }
        k += 1;
    }
    proof {
        lemma_first_absent(ns, name@);
    }
    None
}

fn find_chapter(chapters: &Vec<(String, ChapterBasicInfoLocal)>, name: &str) -> (r: Option<usize>)
    ensures
        match r {
            Some(j) => chapter_names(counted_chapters(chapters@)).index_of_first(name@) == Some(
                j as int,
            ) && j < chapters.len(),
            None => chapter_names(counted_chapters(chapters@)).index_of_first(name@) is None,
        },
{
    let ghost ns = chapter_names(counted_chapters(chapters@));
    let mut j: usize = 0;
    while j < chapters.len()
        invariant
            j <= chapters.len(),
            ns == chapter_names(counted_chapters(chapters@)),
            forall|m: int| 0 <= m < j ==> ns[m] != name@,
        decreases chapters.len() - j,
    {
        if str_eq(chapters[j].0.as_str(), name) {
            proof {
                lemma_first_found(ns, name@, j as int);
            }
            return Some(j);
        }
        j += 1;
    }
    proof {
        lemma_first_absent(ns, name@);
    }
    None
}

/// Reads off a directory entry the item and the chapter that it belongs
/// to.
pub fn place_of(e: &WalkEntry) -> (r: Option<(String, String)>)
    ensures
        match r {
            Some((item, chapter)) => tree_place(e@) == Some((item@, chapter@)),
            None => tree_place(e@) is None,
        },
{
    if e.depth != 3 {
        return None;
    }
    let n = path_components(e.path.as_str());
    if n.len() < 3 {
        return None;
    }
    Some((string_of(&n[n.len() - 3]), string_of(&n[n.len() - 2])))
}

/// Gathers the items of a listing and counts the entries of each chapter.
pub fn read_all_infos(entries: &Vec<WalkEntry>) -> (out: Vec<MangaInfoLocal>)
    ensures
        group_models(out@) == scan(entry_models(entries@)),
        sound(group_models(out@), entries.len() as int),
{
    let ghost all = entry_models(entries@);
    let mut out: Vec<MangaInfoLocal> = Vec::new();
    let mut i: usize = 0;
    while i < entries.len()
        invariant
            i <= entries.len(),
            all == entry_models(entries@),
            group_models(out@) == scan(all.take(i as int)),
        decreases entries.len() - i,
    {
        let e = &entries[i];
        let ghost before = group_models(out@);
        proof {
            assert(all.take(i + 1).drop_last() =~= all.take(i as int));
            lemma_scan(all.take(i as int));
        }
        match place_of(e) {
            Some((item, chapter)) => {
                match find_group(&out, item.as_str()) {
                    Some(k) => {
                        let ghost had = before[k as int].chapters;
                        proof {
                            group_names(before).index_of_first_ensures(item@);
                        }
                        match find_chapter(&out[k].chapters, chapter.as_str()) {
                            Some(j) => {
                                proof {
                                    chapter_names(had).index_of_first_ensures(chapter@);
                                }
                                out[k].chapters[j].1.length = out[k].chapters[j].1.length + 1;
                                assert(counted_chapters(out@[k as int].chapters@) =~= counted_in(
                                    had,
                                    chapter@,
                                ));
                            },
                            None => {
                                let counted = ChapterBasicInfoLocal { length: 1 };
                                out[k].chapters.push((chapter, counted));
                                assert(counted_chapters(out@[k as int].chapters@) =~= counted_in(
                                    had,
                                    chapter@,
                                ));
                            },
                        }
                    },
                    None => {
                        let ghost chapter_name = chapter@;
                        let mut chapters: Vec<(String, ChapterBasicInfoLocal)> = Vec::new();
                        chapters.push((chapter, ChapterBasicInfoLocal { length: 1 }));
                        let group = MangaInfoLocal { name: item, chapters };
                        assert(group@.chapters =~= seq![(chapter_name, 1usize)]);
                        out.push(group);
                    },
                }
            },
            None => {},
        }
        i += 1;
    }
    proof {
        assert(all.take(i as int) =~= all);
        lemma_scan(all);
    }
    out
}

/// The number of entries counted for the chapter `name`; 0 where there is
/// no such chapter.
pub open spec fn length_of(chapters: Seq<(Seq<char>, usize)>, name: Seq<char>) -> usize {
    match chapter_names(chapters).index_of_first(name) {
        Some(j) => chapters[j].1,
        None => 0,
    }
}

/// The chapter entries of an item: its chapters in the lexical order of
/// their names, each found under the identifier of its name, with its
/// number of entries as its number of pages.
pub open spec fn sorted_chapters(chapters: Seq<(Seq<char>, usize)>) -> Seq<ChapterModel> {
    let sorted = chapter_names(chapters).sort_by(lex_order());
    Seq::new(
        sorted.len(),
        |j: int|
            ChapterModel {
                id: name_key(sorted[j]),
                name: sorted[j],
                length: length_of(chapters, sorted[j]),
            },
    )
}

/// The catalog entry of the item `g`: found under the identifier of its
/// name; its cover is page 0 of its first chapter.
pub open spec fn entry_of(g: TreeGroupModel) -> MangaModel {
    let id = name_key(g.name);
    let chapters = sorted_chapters(g.chapters);
    MangaModel { name: g.name, pic: cover(id, chapters[0].id), id, chapters }
}

/// The catalog entries of the items `gs`, in order.
pub open spec fn entries_of(gs: Seq<TreeGroupModel>) -> Seq<MangaModel> {
    Seq::new(gs.len(), |i: int| entry_of(gs[i]))
}

/// The path of the file that holds page `pic_id` of a chapter: pages are
/// numbered from 1 and written with at least three digits.
pub open spec fn page_file(
    base_path: Seq<char>,
    item: Seq<char>,
    chapter: Seq<char>,
    pic_id: usize,
) -> Seq<char> {
    base_path + "/"@ + item + "/"@ + chapter + "/"@ + padded3(decimal((pic_id + 1) as nat))
        + ".jpg"@
}

/// The layout with what its scan found.
#[derive(Debug, Clone)]
pub struct CopyManga {
    pub info: Vec<MangaInfoLocal>,
}

impl CopyManga {
    /// Scans a listing of the storage root.
    pub fn new(entries: &Vec<WalkEntry>) -> (r: CopyManga)
        ensures
            group_models(r.info@) == scan(entry_models(entries@)),
            sound(group_models(r.info@), entries.len() as int),
            r.wf(),
    {
        CopyManga { info: read_all_infos(entries) }
    }

    /// Tests whether no two items have names with the same identifier.
    pub fn names_told_apart(&self) -> (r: bool)
        ensures
            r == told_apart(group_names(group_models(self.info@))),
    {
        let ghost given = group_names(group_models(self.info@));
        let mut item_names: Vec<String> = Vec::new();
        let mut i: usize = 0;
        while i < self.info.len()
            invariant
                i <= self.info.len(),
                given == group_names(group_models(self.info@)),
                names(item_names@) == given.take(i as int),
            decreases self.info.len() - i,
        {
            let ghost had = names(item_names@);
            item_names.push(self.info[i].name.clone());
            assert(names(item_names@) =~= had.push(given[i as int]));
            i += 1;
        }
        assert(given.take(i as int) =~= given);
        names_told_apart(&item_names)
    }
}

impl MangaInfoLocal {
    /// Tests whether no two chapters of the item have names with the same
    /// identifier.
    pub fn chapters_told_apart(&self) -> (r: bool)
        ensures
            r == told_apart(chapter_names(self@.chapters)),
    {
        let ghost given = chapter_names(self@.chapters);
        let mut chapters: Vec<String> = Vec::new();
        let mut j: usize = 0;
        while j < self.chapters.len()
            invariant
                j <= self.chapters.len(),
                given == chapter_names(self@.chapters),
                names(chapters@) == given.take(j as int),
            decreases self.chapters.len() - j,
        {
            let ghost had = names(chapters@);
            chapters.push(self.chapters[j].0.clone());
            assert(names(chapters@) =~= had.push(given[j as int]));
            j += 1;
        }
        assert(given.take(j as int) =~= given);
        names_told_apart(&chapters)
    }
}

fn chapters_in_order(g: &MangaInfoLocal) -> (chapters: Vec<ChapterBasicInfo>)
    ensures
        chapter_models(chapters@) == sorted_chapters(g@.chapters),
        forall|j: int| 0 <= j < chapters@.len() ==> (#[trigger] chapters@[j])@.id.len() == 32,
{
    let ghost given = chapter_names(g@.chapters);
    let mut sorted: Vec<String> = Vec::new();
    let mut j: usize = 0;
    while j < g.chapters.len()
        invariant
            j <= g.chapters.len(),
            given == chapter_names(g@.chapters),
            names(sorted@) == given.take(j as int),
        decreases g.chapters.len() - j,
    {
        let ghost had = names(sorted@);
        let name = g.chapters[j].0.clone();
        sorted.push(name);
        assert(names(sorted@) =~= had.push(given[j as int]));
        j += 1;
    }
    assert(given.take(j as int) =~= given);
    sort_names(&mut sorted);
    proof {
        lemma_lex_total();
        lemma_sort_len(given, lex_order());
    }
    let ghost wanted = sorted_chapters(g@.chapters);
    let mut chapters: Vec<ChapterBasicInfo> = Vec::new();
    let mut j: usize = 0;
    while j < sorted.len()
        invariant
            j <= sorted.len(),
            names(sorted@) == chapter_names(g@.chapters).sort_by(lex_order()),
            wanted == sorted_chapters(g@.chapters),
            wanted.len() == sorted.len(),
            chapter_models(chapters@) == wanted.take(j as int),
            forall|k: int| 0 <= k < chapters@.len() ==> (#[trigger] chapters@[k])@.id.len() == 32,
        decreases sorted.len() - j,
    {
        let name = sorted[j].clone();
        let length = match find_chapter(&g.chapters, name.as_str()) {
            Some(m) => g.chapters[m].1.length,
            None => 0,
        };
        let id = name_id(name.as_str());
        let ghost had = chapter_models(chapters@);
        let chapter = ChapterBasicInfo { id, name, length };
        chapters.push(chapter);
        assert(chapter_models(chapters@) =~= had.push(wanted[j as int]));
        j += 1;
    }
    chapters
}

impl BackendTrait for CopyManga {
    /// Every item has a chapter.
    open spec fn wf(&self) -> bool {
        forall|k: int|
            0 <= k < self.info@.len() ==> (#[trigger] group_models(self.info@)[k]).chapters.len()
                >= 1
    }

    open spec fn catalog(&self) -> Seq<MangaModel> {
        put_all(Seq::<MangaModel>::empty(), entries_of(group_models(self.info@)))
    }

    /// A page is there where the catalog has the item and the chapter and
    /// the number is below the page count of the chapter.
    open spec fn page(
        &self,
        list: Seq<MangaModel>,
        base_path: Seq<char>,
        manga_id: Seq<char>,
        chapter: Seq<char>,
        pic_id: usize,
    ) -> Option<PagePlace> {
        match lookup(list, manga_id) {
            Some(m) => match lookup_chapter(m.chapters, chapter) {
                Some(c) => if pic_id >= c.length {
                    None
                } else {
                    Some(PagePlace::File { path: page_file(base_path, m.name, c.name, pic_id) })
                },
                None => None,
            },
            None => None,
        }
    }

    open spec fn chapter(
        &self,
        list: Seq<MangaModel>,
        base_path: Seq<char>,
        manga_id: Seq<char>,
        chapter: Seq<char>,
    ) -> Option<ChapterPlace> {
        match lookup(list, manga_id) {
            Some(m) => match lookup_chapter(m.chapters, chapter) {
                Some(c) => Some(
                    ChapterPlace::Known {
                        info: ChapterInfoModel { length: c.length, name: c.name },
                    },
                ),
                None => None,
            },
            None => None,
        }
    }

    /// Every identifier of the catalog, of an entry or of a chapter, has
    /// 32 characters.
    fn generate_manga_list(&self, path: &str) -> (list: MangaList)
        ensures
            ids_have_width(list.list@, 32),
            chapter_ids_have_width(list.list@, 32),
    {
        let ghost items = entries_of(group_models(self.info@));
        let mut list = MangaList::new(path);
        let mut i: usize = 0;
        while i < self.info.len()
            invariant
                i <= self.info.len(),
                self.wf(),
                items == entries_of(group_models(self.info@)),
                list.list@ == put_all(Seq::<MangaModel>::empty(), items.take(i as int)),
                list.list.wf(),
                list.path@ == path@,
                list.all_basic_info is None,
                ids_have_width(list.list@, 32),
                chapter_ids_have_width(list.list@, 32),
            decreases self.info.len() - i,
        {
            let g = &self.info[i];
            assert(group_models(self.info@)[i as int].chapters.len() >= 1);
            let chapters = chapters_in_order(g);
            proof {
                lemma_lex_total();
                lemma_sort_len(chapter_names(g@.chapters), lex_order());
                assert(chapter_models(chapters@).len() == chapters@.len());
            }
            let id = name_id(g.name.as_str());
            let pic = cover_ref(id.as_str(), chapters[0].id.as_str());
            let info = MangaInfo { name: g.name.clone(), pic, id, chapters };
            proof {
                assert(items.take(i + 1).drop_last() =~= items.take(i as int));
                lemma_put_entries(list.list@, info@);
            }
            list.list.insert(info);
            i += 1;
        }
        assert(items.take(i as int) =~= items);
        list
    }

    fn get_pic_in_chapter(
        &self,
        list: &MangaList,
        base_path: &str,
        manga_id: &str,
        chapter: &str,
        pic_id: usize,
    ) -> (r: Option<PageSource>) {
        let m = match list.list.get(manga_id) {
            Some(m) => m,
            None => {
                return None;
            },
        };
        let c = match m.chapter(chapter) {
            Some(c) => c,
            None => {
                return None;
            },
        };
        if pic_id >= c.length {
            return None;
        }
        let mut path = base_path.to_owned();
        path.append("/");
        path.append(m.name.as_str());
        path.append("/");
        path.append(c.name.as_str());
        path.append("/");
        let number = padded3_string(pic_id + 1);
        path.append(number.as_str());
        path.append(".jpg");
        Some(PageSource::File { path })
    }

    fn get_chapter_info(
        &self,
        list: &MangaList,
        base_path: &str,
        manga_id: &str,
        chapter: &str,
    ) -> (r: Option<ChapterSource>) {
        let m = match list.list.get(manga_id) {
            Some(m) => m,
            None => {
                return None;
            },
        };
        match m.chapter(chapter) {
            Some(c) => Some(
                ChapterSource::Known {
                    info: ChapterInfo { length: c.length, name: c.name.clone() },
                },
            ),
            None => None,
        }
    }
}

/// The names of the chapter entries `s`, in order.
pub open spec fn entry_names(s: Seq<ChapterModel>) -> Seq<Seq<char>> {
    Seq::new(s.len(), |j: int| s[j].name)
}

/// The chapters of a catalog entry are the chapters of the item, in the
/// lexical order of their names.
pub proof fn lemma_chapters_in_order(chapters: Seq<(Seq<char>, usize)>)
    ensures
        sorted_chapters(chapters).len() == chapters.len(),
        entry_names(sorted_chapters(chapters)) == chapter_names(chapters).sort_by(lex_order()),
        sorted_by(entry_names(sorted_chapters(chapters)), lex_order()),
        entry_names(sorted_chapters(chapters)).to_multiset() == chapter_names(
            chapters,
        ).to_multiset(),
{
    lemma_lex_total();
    lemma_sort_len(chapter_names(chapters), lex_order());
    chapter_names(chapters).lemma_sort_by_ensures(lex_order());
}

/// Where the chapters of an item differ in name and no two of the names
/// have the same identifier, the chapters of its catalog entry differ in
/// identifier.
pub proof fn lemma_chapter_ids(chapters: Seq<(Seq<char>, usize)>)
    requires
        chapter_names(chapters).no_duplicates(),
        told_apart(chapter_names(chapters)),
    ensures
        chapter_ids(sorted_chapters(chapters)).no_duplicates(),
{
    let given = chapter_names(chapters);
    let sorted = given.sort_by(lex_order());
    lemma_sorted_distinct(given);
    let found = chapter_ids(sorted_chapters(chapters));
    assert forall|a: int, b: int| 0 <= a < b < found.len() implies found[a] != found[b] by {
        assert(given.contains(sorted[a]));
        assert(given.contains(sorted[b]));
    }
}

/// Where no two items of the listing have names with the same identifier,
/// the catalog of a scan has one entry for each item of the listing, in
/// the order in which the items first occur; no two entries share an
/// identifier; the identifier of each entry is that of its name; the cover
/// of each entry is page 0 of its first chapter; and the chapters of each
/// entry are in the lexical order of their names.
pub proof fn lemma_catalog(c: CopyManga, entries: Seq<WalkEntryModel>)
    requires
        group_models(c.info@) == scan(entries),
        entries.len() <= usize::MAX,
        told_apart(group_names(scan(entries))),
    ensures
        c.wf(),
        c.catalog() == entries_of(scan(entries)),
        c.catalog().len() == occurring(item_names(entries)).len(),
        unique_ids(c.catalog()),
        forall|k: int|
            0 <= k < c.catalog().len() ==> {
                &&& (#[trigger] c.catalog()[k]).id == name_key(c.catalog()[k].name)
                &&& c.catalog()[k].chapters.len() >= 1
                &&& c.catalog()[k].pic == cover(c.catalog()[k].id, c.catalog()[k].chapters[0].id)
                &&& sorted_by(entry_names(c.catalog()[k].chapters), lex_order())
            },
{
    lemma_scan(entries);
    lemma_first_seen(item_names(entries));
    let groups = scan(entries);
    let items = entries_of(groups);
    assert forall|a: int, b: int| 0 <= a < b < items.len() implies ids(items)[a]
        != ids(items)[b] by {
        assert(name_key(group_names(groups)[a]) != name_key(group_names(groups)[b]));
    }
    lemma_put_all_distinct(items);
    lemma_put_all(items);
    assert forall|k: int| 0 <= k < items.len() implies {
        &&& (#[trigger] items[k]).id == name_key(items[k].name)
        &&& items[k].chapters.len() >= 1
        &&& items[k].pic == cover(items[k].id, items[k].chapters[0].id)
        &&& sorted_by(entry_names(items[k].chapters), lex_order())
    } by {
        lemma_chapters_in_order(groups[k].chapters);
    }
}

/// Two scans of the same listing give the same catalog, identifier for
/// identifier.
pub proof fn lemma_rescan(a: CopyManga, b: CopyManga, entries: Seq<WalkEntryModel>)
    requires
        group_models(a.info@) == scan(entries),
        group_models(b.info@) == scan(entries),
    ensures
        a.catalog() == b.catalog(),
        ids(a.catalog()) == ids(b.catalog()),
{
}

/// A page is found exactly where its chapter is there and its number is
/// below the number of pages of the chapter.
pub proof fn lemma_pages(
    c: CopyManga,
    list: Seq<MangaModel>,
    base_path: Seq<char>,
    manga_id: Seq<char>,
    chapter: Seq<char>,
    pic_id: usize,
)
    ensures
        match c.chapter(list, base_path, manga_id, chapter) {
            Some(ChapterPlace::Known { info }) => c.page(
                list,
                base_path,
                manga_id,
                chapter,
                pic_id,
            ) is Some <==> pic_id < info.length,
            _ => c.page(list, base_path, manga_id, chapter, pic_id) is None,
        },
{
}

} // verus!
