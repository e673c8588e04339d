//! What every storage layout offers: a catalog built from a scan, and the
//! place of a page and the facts of a chapter on request. Nothing here reads
//! storage: a scan is handed the directory listing, and a request is
//! answered with the place to read.

use crate::manga_list::{MangaList, MangaModel};
use vstd::prelude::*;

verus! {

/// What a directory entry says.
pub struct WalkEntryModel {
    pub depth: usize,
    pub is_file: bool,
    pub file_name: Seq<char>,
    pub path: Seq<char>,
}

/// One entry of a recursive directory listing: how deep below the root it
/// lies (the root itself is at depth 0), whether it is a regular file, its
/// last component and its whole path.
#[derive(Debug, Clone, PartialEq, Eq)]
pub struct WalkEntry {
    pub depth: usize,
    pub is_file: bool,
    pub file_name: String,
    pub path: String,
}

impl View for WalkEntry {
    type V = WalkEntryModel;

    open spec fn view(&self) -> WalkEntryModel {
        WalkEntryModel {
            depth: self.depth,
            is_file: self.is_file,
            file_name: self.file_name@,
            path: self.path@,
        }
    }
}

/// The entries that `v` holds.
pub open spec fn entry_models(v: Seq<WalkEntry>) -> Seq<WalkEntryModel> {
    Seq::new(v.len(), |i: int| v[i]@)
}

/// What a chapter answer says.
pub struct ChapterInfoModel {
    pub length: usize,
    pub name: Seq<char>,
}

/// The facts of one chapter: its number of pages and its name.
#[derive(Debug, Clone, PartialEq, Eq)]
pub struct ChapterInfo {
    pub length: usize,
    pub name: String,
}

impl View for ChapterInfo {
    type V = ChapterInfoModel;

    open spec fn view(&self) -> ChapterInfoModel {
        ChapterInfoModel { length: self.length, name: self.name@ }
    }
}

/// What a page answer says.
pub enum PagePlace {
    File { path: Seq<char> },
    ArchiveEntry { archive: Seq<char>, page: usize },
}

/// Where the bytes of a page are: a file to read whole, or the entry for a
/// page number inside an archive.
#[derive(Debug, Clone, PartialEq, Eq)]
pub enum PageSource {
    File { path: String },
    ArchiveEntry { archive: String, page: usize },
}

impl View for PageSource {
    type V = PagePlace;

    open spec fn view(&self) -> PagePlace {
        match self {
            PageSource::File { path } => PagePlace::File { path: path@ },
            PageSource::ArchiveEntry { archive, page } => PagePlace::ArchiveEntry {
                archive: archive@,
                page: *page,
            },
        }
    }
}

/// What a chapter lookup says.
pub enum ChapterPlace {
    Known { info: ChapterInfoModel },
    Archive { archive: Seq<char>, name: Seq<char> },
}

/// The facts of a chapter, or where to count them: the chapter named `name`
/// has as many pages as the archive has entries.
#[derive(Debug, Clone, PartialEq, Eq)]
pub enum ChapterSource {
    Known { info: ChapterInfo },
    Archive { archive: String, name: String },
}

impl View for ChapterSource {
    type V = ChapterPlace;

    open spec fn view(&self) -> ChapterPlace {
        match self {
            ChapterSource::Known { info } => ChapterPlace::Known { info: info@ },
            ChapterSource::Archive { archive, name } => ChapterPlace::Archive {
                archive: archive@,
                name: name@,
            },
        }
    }
}

/// The facts that a chapter lookup gives once the entries of the archive
/// have been counted; a known chapter keeps its own count.
pub open spec fn counted(place: ChapterPlace, entries: usize) -> ChapterInfoModel {
    match place {
        ChapterPlace::Known { info } => info,
        ChapterPlace::Archive { archive, name } => ChapterInfoModel { length: entries, name },
    }
}

impl ChapterSource {
    /// Completes the lookup with the number of entries found in the archive.
    pub fn with_count(self, entries: usize) -> (r: ChapterInfo)
        ensures
            r@ == counted(self@, entries),
    {
        match self {
            ChapterSource::Known { info } => info,
            ChapterSource::Archive { archive, name } => ChapterInfo { length: entries, name },
        }
    }
}

/// What an optional value says.
pub open spec fn said<T: View>(o: Option<T>) -> Option<T::V> {
    match o {
        Some(x) => Some(x@),
        None => None,
    }
}

/// A storage layout, holding what its scan found.
pub trait BackendTrait {
    /// Whether the scan result is one that a scan can give.
    spec fn wf(&self) -> bool;

    /// The catalog entries that the scan result stands for.
    spec fn catalog(&self) -> Seq<MangaModel>;

    /// The place of page `pic_id` of a chapter, for a catalog with the
    /// entries `list`.
    spec fn page(
        &self,
        list: Seq<MangaModel>,
        base_path: Seq<char>,
        manga_id: Seq<char>,
        chapter: Seq<char>,
        pic_id: usize,
    ) -> Option<PagePlace>;

    /// The facts of a chapter, for a catalog with the entries `list`.
    spec fn chapter(
        &self,
        list: Seq<MangaModel>,
        base_path: Seq<char>,
        manga_id: Seq<char>,
        chapter: Seq<char>,
    ) -> Option<ChapterPlace>;

    /// Builds the catalog for the storage root `path`.
    fn generate_manga_list(&self, path: &str) -> (list: MangaList)
        requires
            self.wf(),
        ensures
            list.list@ == self.catalog(),
            list.list.wf(),
            list.path@ == path@,
            list.all_basic_info is None,
    ;

    /// Finds where page `pic_id` of a chapter is; none where the item, the
    /// chapter or the page is not there.
    fn get_pic_in_chapter(
        &self,
        list: &MangaList,
        base_path: &str,
        manga_id: &str,
        chapter: &str,
        pic_id: usize,
    ) -> (r: Option<PageSource>)
        requires
            self.wf(),
        ensures
            said(r) == self.page(list.list@, base_path@, manga_id@, chapter@, pic_id),
    ;

    /// Finds the facts of a chapter; none where the item or the chapter is
    /// not there.
    fn get_chapter_info(
        &self,
        list: &MangaList,
        base_path: &str,
        manga_id: &str,
        chapter: &str,
    ) -> (r: Option<ChapterSource>)
        requires
            self.wf(),
        ensures
            said(r) == self.chapter(list.list@, base_path@, manga_id@, chapter@),
    ;
}

} // verus!
