//! The layout of one archive for each chapter, named by two numbers: the
//! archive `<item>_<chapter>.zip` holds the pages of chapter `<chapter>` of
//! item `<item>`, each page in an entry named by its number. A side table
//! gives names to the items.

use crate::backend::{
    entry_models, said, BackendTrait, ChapterPlace, ChapterSource, PagePlace, PageSource, WalkEntry,
    WalkEntryModel,
};
use crate::group::{first_seen, lemma_first_absent, lemma_first_found, lemma_first_seen, occurring};
use crate::ident::{number_id, number_key};
use crate::manga_list::{
    chapter_ids, chapter_models, cover, cover_ref, ids, lemma_put_all, lemma_put_all_distinct,
    put_all, unique_ids, ChapterBasicInfo, ChapterModel, MangaInfo, MangaList, MangaModel,
};
use crate::order::{lemma_num_total, lemma_sort_len, num_order, sort_numbers};
use crate::text::{
    chars_of, find, find_chars, lemma_decimal_injective, lemma_split_len, parse_decimal,
    parse_usize, prefix_chars, split, split_chars, str_eq, string_of, suffix_chars, trim,
    trim_chars, views,
};
use std::collections::HashMap;
use vstd::prelude::*;
use vstd::relations::sorted_by;

verus! {

/// The lines of a text: what stands between line feeds, without the empty
/// rest behind a last line feed.
pub open spec fn lines(text: Seq<char>) -> Seq<Seq<char>> {
    let pieces = split(text, '\n');
    if pieces.last().len() == 0 {
        pieces.drop_last()
    } else {
        pieces
    }
}

/// What one line of the side table says: `<key>==><name>`, where the key
/// is a decimal number and white space around the key and around the name
/// does not count. A second `==>` ends the name.
pub open spec fn mapping_line(line: Seq<char>) -> Option<(usize, Seq<char>)> {
    match find(line, "==>"@) {
        None => None,
        Some(i) => {
            let rest = line.skip(i + "==>"@.len());
            let name = match find(rest, "==>"@) {
                Some(j) => rest.take(j),
                None => rest,
            };
            match parse_decimal(trim(line.take(i))) {
                Some(id) => Some((id, trim(name))),
                None => None,
            }
        },
    }
}

/// What the lines of a side table say together: each key with the name of
/// the last line that gives it one; nothing where a line is malformed.
pub open spec fn mapping_of(ls: Seq<Seq<char>>) -> Option<Map<usize, Seq<char>>>
    decreases ls.len(),
{
    if ls.len() == 0 {
        Some(Map::<usize, Seq<char>>::empty())
    } else {
        match (mapping_of(ls.drop_last()), mapping_line(ls.last())) {
            (Some(m), Some((id, name))) => Some(m.insert(id, name)),
            _ => None,
        }
    }
}

/// A table says something exactly where each of its lines does.
pub proof fn lemma_mapping_of(ls: Seq<Seq<char>>)
    ensures
        mapping_of(ls) is Some <==> forall|j: int|
            0 <= j < ls.len() ==> mapping_line(#[trigger] ls[j]) is Some,
    decreases ls.len(),
{
    if ls.len() > 0 {
        lemma_mapping_of(ls.drop_last());
        if mapping_of(ls) is Some {
            assert forall|j: int| 0 <= j < ls.len() implies mapping_line(
                #[trigger] ls[j],
            ) is Some by {
                if j < ls.len() - 1 {
                    assert(ls.drop_last()[j] == ls[j]);
                }
            }
        }
    }
}

/// The names that the strings of a map hold.
pub open spec fn name_map(m: Map<usize, String>) -> Map<usize, Seq<char>> {
    Map::new(|k: usize| m.contains_key(k), |k: usize| m[k]@)
}

/// The side table could not be read: line `line`, counted from 0, is the
/// first that is malformed.
#[derive(Debug, Clone, Copy, PartialEq, Eq, Structural)]
pub struct MappingError {
    pub line: usize,
}

/// Reads one line of a side table.
pub fn parse_mapping_line(line: &Vec<char>) -> (r: Option<(usize, String)>)
    ensures
        match r {
            Some((id, name)) => mapping_line(line@) == Some((id, name@)),
            None => mapping_line(line@) is None,
        },
{
    let arrow = chars_of("==>");
    proof {
        reveal_strlit("==>");
    }
    let i = match find_chars(line, &arrow) {
        Some(i) => i,
        None => {
            return None;
        },
    };
    assert(i + 3 <= line.len());
    let rest = suffix_chars(line, i + 3);
    let name = match find_chars(&rest, &arrow) {
        Some(j) => prefix_chars(&rest, j),
        None => rest,
    };
    let key = prefix_chars(line, i);
    let key = trim_chars(&key);
    match parse_usize(&key) {
        Some(id) => {
            let name = trim_chars(&name);
            Some((id, string_of(&name)))
        },
        None => None,
    }
}

/// Reads a side table. Fails at the first malformed line.
pub fn read_id_mapping(text: &str) -> (r: Result<HashMap<usize, String>, MappingError>)
    ensures
        match r {
            Ok(m) => mapping_of(lines(text@)) == Some(name_map(m@)),
            Err(e) => {
                &&& mapping_of(lines(text@)) is None
                &&& e.line < lines(text@).len()
                &&& mapping_line(lines(text@)[e.line as int]) is None
                &&& forall|j: int|
                    0 <= j < e.line ==> mapping_line(#[trigger] lines(text@)[j]) is Some
            },
        },
{
    broadcast use vstd::std_specs::hash::group_hash_axioms;

    let chars = chars_of(text);
    let pieces = split_chars(&chars, '\n');
    proof {
        lemma_split_len(chars@, '\n');
    }
    let n = if pieces[pieces.len() - 1].len() == 0 {
        pieces.len() - 1
    } else {
        pieces.len()
    };
    let ghost ls = lines(text@);
    let mut m: HashMap<usize, String> = HashMap::new();
    let mut i: usize = 0;
    while i < n
        invariant
            i <= n <= pieces.len(),
            ls == views(pieces@).take(n as int),
            ls == lines(text@),
            mapping_of(ls.take(i as int)) == Some(name_map(m@)),
        decreases n - i,
    {
        proof {
            assert(ls.take(i + 1).drop_last() =~= ls.take(i as int));
        }
        match parse_mapping_line(&pieces[i]) {
            Some((id, name)) => {
                m.insert(id, name);
            },
            None => {
                proof {
                    lemma_mapping_of(ls);
                    lemma_mapping_of(ls.take(i as int));
                    assert forall|j: int| 0 <= j < i implies mapping_line(
                        #[trigger] ls[j],
                    ) is Some by {
                        assert(ls.take(i as int)[j] == ls[j]);
                    }
                }
                return Err(MappingError { line: i });
            },
        }
        i += 1;
    }
    assert(ls.take(i as int) =~= ls);
    Ok(m)
}

/// The two numbers in the name of an archive: the piece before the first
/// `_` is the key of the item, and the piece behind it, as far as its first
/// dot, is the key of the chapter.
pub open spec fn archive_ids(name: Seq<char>) -> Option<(usize, usize)> {
    let parts = split(name, '_');
    if parts.len() < 2 {
        None
    } else {
        match (parse_decimal(parts[0]), parse_decimal(split(parts[1], '.')[0])) {
            (Some(item), Some(chapter)) => Some((item, chapter)),
            _ => None,
        }
    }
}

/// Reads the two numbers in the name of an archive.
pub fn parse_archive_name(name: &str) -> (r: Option<(usize, usize)>)
    ensures
        r == archive_ids(name@),
{
    let chars = chars_of(name);
    let parts = split_chars(&chars, '_');
    if parts.len() < 2 {
        return None;
    }
    let behind = split_chars(&parts[1], '.');
    proof {
        lemma_split_len(parts@[1]@, '.');
    }
    match parse_usize(&parts[0]) {
        Some(item) => match parse_usize(&behind[0]) {
            Some(chapter) => Some((item, chapter)),
            None => None,
        },
        None => None,
    }
}

/// What is known of one item: its key and the keys of its chapters.
pub struct ZipGroupModel {
    pub id: usize,
    pub chapters: Seq<usize>,
}

/// One item as the scan found it: its key and the keys of its chapters.
#[derive(Debug, Clone, PartialEq, Eq)]
pub struct ZipGroup {
    pub id: usize,
    pub chapters: Vec<usize>,
}

impl View for ZipGroup {
    type V = ZipGroupModel;

    open spec fn view(&self) -> ZipGroupModel {
        ZipGroupModel { id: self.id, chapters: self.chapters@ }
    }
}

/// The items that `v` holds.
pub open spec fn group_models(v: Seq<ZipGroup>) -> Seq<ZipGroupModel> {
    Seq::new(v.len(), |i: int| v[i]@)
}

/// The keys of the items of `s`, in order.
pub open spec fn keys(s: Seq<ZipGroupModel>) -> Seq<usize> {
    Seq::new(s.len(), |i: int| s[i].id)
}

/// The items `groups` after the directory entry `e`. Only a regular file
/// with two numbers in its name counts: its chapter goes behind the
/// chapters of its item.
pub open spec fn with_archive(groups: Seq<ZipGroupModel>, e: WalkEntryModel) -> Seq<
    ZipGroupModel,
> {
    if !e.is_file {
        groups
    } else {
        match archive_ids(e.file_name) {
            None => groups,
            Some((item, chapter)) => match keys(groups).index_of_first(item) {
                Some(k) => groups.update(
                    k,
                    ZipGroupModel { id: item, chapters: groups[k].chapters.push(chapter) },
                ),
                None => groups.push(ZipGroupModel { id: item, chapters: seq![chapter] }),
            },
        }
    }
}

/// The items that a listing holds, in the order in which their keys first
/// occur, each with its chapters in the order of the listing.
pub open spec fn gathered(entries: Seq<WalkEntryModel>) -> Seq<ZipGroupModel>
    decreases entries.len(),
{
    if entries.len() == 0 {
        Seq::<ZipGroupModel>::empty()
    } else {
        with_archive(gathered(entries.drop_last()), entries.last())
    }
}

/// The items `groups`, each with its chapters in ascending order.
pub open spec fn in_order(groups: Seq<ZipGroupModel>) -> Seq<ZipGroupModel> {
    Seq::new(
        groups.len(),
        |i: int|
            ZipGroupModel { id: groups[i].id, chapters: groups[i].chapters.sort_by(num_order()) },
    )
}

/// The items of a listing, each with its chapters in ascending order.
pub open spec fn archives(entries: Seq<WalkEntryModel>) -> Seq<ZipGroupModel> {
    in_order(gathered(entries))
}

/// The key of the item that a directory entry adds a chapter to, if it
/// adds one.
pub open spec fn item_key(e: WalkEntryModel) -> Option<usize> {
    if e.is_file {
        match archive_ids(e.file_name) {
            Some((item, chapter)) => Some(item),
            None => None,
        }
    } else {
        None
    }
}

/// For each entry of a listing, the key of the item that it adds a chapter
/// to.
pub open spec fn item_keys(entries: Seq<WalkEntryModel>) -> Seq<Option<usize>> {
    Seq::new(entries.len(), |i: int| item_key(entries[i]))
}

/// The items gathered from a listing are the items that its archives name,
/// each once, in the order in which they first occur; and every item has
/// a chapter.
pub proof fn lemma_gathered(entries: Seq<WalkEntryModel>)
    ensures
        keys(gathered(entries)) == first_seen(item_keys(entries)),
        forall|k: int|
            0 <= k < gathered(entries).len() ==> (#[trigger] gathered(entries)[k]).chapters.len()
                >= 1,
    decreases entries.len(),
{
    if entries.len() > 0 {
        let rest = entries.drop_last();
        lemma_gathered(rest);
        assert(item_keys(entries).drop_last() =~= item_keys(rest));
        if let Some(item) = item_key(entries.last()) {
            keys(gathered(rest)).index_of_first_ensures(item);
        }
    }
}

/// The chapters of each item of a listing are in ascending order, and each
/// item has one.
pub proof fn lemma_archives(entries: Seq<WalkEntryModel>)
    ensures
        archives(entries).len() == gathered(entries).len(),
        keys(archives(entries)) == first_seen(item_keys(entries)),
        keys(archives(entries)).no_duplicates(),
        forall|k: int|
            0 <= k < archives(entries).len() ==> (#[trigger] archives(entries)[k]).chapters.len()
                >= 1,
        forall|k: int, a: int, b: int|
            0 <= k < archives(entries).len() && 0 <= a < b < archives(entries)[k].chapters.len()
                ==> #[trigger] archives(entries)[k].chapters[a] <= #[trigger] archives(
                entries,
            )[k].chapters[b],
{
    lemma_gathered(entries);
    lemma_first_seen(item_keys(entries));
    lemma_num_total();
    let g = gathered(entries);
    let s = archives(entries);
    assert forall|k: int| 0 <= k < s.len() implies (#[trigger] s[k]).chapters.len() >= 1 by {
        lemma_sort_len(g[k].chapters, num_order());
    }
    assert forall|k: int, a: int, b: int|
        0 <= k < s.len() && 0 <= a < b < s[k].chapters.len() implies #[trigger] s[k].chapters[a]
        <= #[trigger] s[k].chapters[b] by {
        g[k].chapters.lemma_sort_by_ensures(num_order());
        let sorted = g[k].chapters.sort_by(num_order());
        assert(num_order()(sorted[a], sorted[b]));
    }
}

fn find_group(groups: &Vec<ZipGroup>, id: usize) -> (r: Option<usize>)
    ensures
        match r {
            Some(k) => keys(group_models(groups@)).index_of_first(id) == Some(k as int) && k
                < groups.len(),
            None => keys(group_models(groups@)).index_of_first(id) is None,
        },
{
    let ghost ks = keys(group_models(groups@));
    let mut k: usize = 0;
    while k < groups.len()
        invariant
            k <= groups.len(),
            ks == keys(group_models(groups@)),
            forall|j: int| 0 <= j < k ==> ks[j] != id,
        decreases groups.len() - k,
    {
        if groups[k].id == id {
            proof {
                lemma_first_found(ks, id, k as int);
            }
            return Some(k);
        }
        k += 1;
    }
    proof {
        lemma_first_absent(ks, id);
    }
    None
}

/// Gathers the items of a listing, and puts the chapters of each in
/// ascending order.
pub fn read_all_zips(entries: &Vec<WalkEntry>) -> (out: Vec<ZipGroup>)
    ensures
        group_models(out@) == archives(entry_models(entries@)),
{
    let ghost all = entry_models(entries@);
    let mut out: Vec<ZipGroup> = Vec::new();
    let mut i: usize = 0;
    while i < entries.len()
        invariant
            i <= entries.len(),
            all == entry_models(entries@),
            group_models(out@) == gathered(all.take(i as int)),
        decreases entries.len() - i,
    {
        let e = &entries[i];
        let ghost before = group_models(out@);
        proof {
            assert(all.take(i + 1).drop_last() =~= all.take(i as int));
        }
        if e.is_file {
            match parse_archive_name(e.file_name.as_str()) {
                Some((item, chapter)) => {
                    match find_group(&out, item) {
                        Some(k) => {
                            proof {
                                keys(before).index_of_first_ensures(item);
                            }
                            out[k].chapters.push(chapter);
                        },
                        None => {
                            let mut chapters: Vec<usize> = Vec::new();
                            chapters.push(chapter);
                            out.push(ZipGroup { id: item, chapters });
                        },
                    }
                },
                None => {},
            }
        }
        i += 1;
    }
    assert(all.take(i as int) =~= all);
    let ghost found = group_models(out@);
    let mut k: usize = 0;
    while k < out.len()
        invariant
            k <= out.len(),
            out.len() == found.len(),
            forall|j: int| 0 <= j < k ==> (#[trigger] group_models(out@)[j]) == in_order(found)[j],
            forall|j: int| k <= j < out.len() ==> (#[trigger] group_models(out@)[j]) == found[j],
        decreases out.len() - k,
    {
        let ghost had = group_models(out@);
        sort_numbers(&mut out[k].chapters);
        proof {
            assert forall|j: int| 0 <= j < k + 1 implies (#[trigger] group_models(out@)[j])
                == in_order(found)[j] by {
                if j < k {
                    assert(group_models(out@)[j] == had[j]);
                } else {
                    assert(had[j] == found[j]);
                }
            }
            assert forall|j: int| k + 1 <= j < out.len() implies (#[trigger] group_models(out@)[j])
                == found[j] by {
                assert(group_models(out@)[j] == had[j]);
            }
        }
        k += 1;
    }
    out
}

/// The name under which a chapter is shown.
pub open spec fn chapter_title(id: Seq<char>) -> Seq<char> {
    "id:"@ + id
}

/// The chapter entries for the chapter keys `keys`: each found under the
/// decimal rendering of its key, with a page count of 0 that stands for
/// "not counted yet".
pub open spec fn chapters_of(keys: Seq<usize>) -> Seq<ChapterModel> {
    Seq::new(
        keys.len(),
        |j: int|
            ChapterModel {
                id: number_key(keys[j]),
                name: chapter_title(number_key(keys[j])),
                length: 0,
            },
    )
}

/// The catalog entry of the item `g`: found under the decimal rendering of
/// its key, named by the side table or, where the table has no name for
/// it, by its key; its cover is page 0 of its first chapter.
pub open spec fn entry_of(names: Map<usize, Seq<char>>, g: ZipGroupModel) -> MangaModel {
    MangaModel {
        name: if names.contains_key(g.id) {
            names[g.id]
        } else {
            number_key(g.id)
        },
        pic: cover(number_key(g.id), number_key(g.chapters[0])),
        id: number_key(g.id),
        chapters: chapters_of(g.chapters),
    }
}

/// The catalog entries of the items `gs`, in order.
pub open spec fn entries_of(names: Map<usize, Seq<char>>, gs: Seq<ZipGroupModel>) -> Seq<
    MangaModel,
> {
    Seq::new(gs.len(), |i: int| entry_of(names, gs[i]))
}

/// The path of the archive of a chapter.
pub open spec fn archive_path(base_path: Seq<char>, manga_id: Seq<char>, chapter: Seq<char>) -> Seq<
    char,
> {
    base_path + "/"@ + manga_id + "_"@ + chapter + ".zip"@
}

/// The name of the archive entry that holds page `page`.
pub open spec fn entry_name(page: usize) -> Seq<char> {
    number_key(page) + ".jpg"@
}

/// Writes the path of the archive of a chapter.
pub fn archive_file(base_path: &str, manga_id: &str, chapter: &str) -> (r: String)
    ensures
        r@ == archive_path(base_path@, manga_id@, chapter@),
{
    let mut r = base_path.to_owned();
    r.append("/");
    r.append(manga_id);
    r.append("_");
    r.append(chapter);
    r.append(".zip");
    r
}

/// What a look through the entry names of an archive gives.
#[derive(Debug, Clone, Copy, PartialEq, Eq, Structural)]
pub enum Located {
    /// The entry at this index holds the page.
    Found(usize),
    /// No entry holds the page.
    Absent,
    /// The name of the entry at this index cannot be read, and no entry
    /// before it holds the page.
    Unreadable(usize),
}

/// For each entry name, whether the look for `page` stops at it: at a
/// name that cannot be read, and at the name of the page.
pub open spec fn stops(names: Seq<Option<Seq<char>>>, page: usize) -> Seq<bool> {
    Seq::new(names.len(), |i: int| names[i] is None || names[i] == Some(entry_name(page)))
}

/// Where page `page` is among the entries of an archive, the names being
/// taken in order. A page number that is not below the number of entries
/// is out of range.
pub open spec fn locate(names: Seq<Option<Seq<char>>>, page: usize) -> Located {
    if page >= names.len() {
        Located::Absent
    } else {
        match stops(names, page).index_of_first(true) {
            Some(i) => if names[i] is None {
                Located::Unreadable(i as usize)
            } else {
                Located::Found(i as usize)
            },
            None => Located::Absent,
        }
    }
}

/// What the entry names `v` say; none stands for a name that is not text.
pub open spec fn entry_names(v: Seq<Option<String>>) -> Seq<Option<Seq<char>>> {
    Seq::new(v.len(), |i: int| said(v[i]))
}

/// Looks for the entry that holds page `page`.
pub fn locate_page(names: &Vec<Option<String>>, page: usize) -> (r: Located)
    ensures
        r == locate(entry_names(names@), page),
{
    if page >= names.len() {
        return Located::Absent;
    }
    let mut wanted = number_id(page);
    wanted.append(".jpg");
    let ghost marks = stops(entry_names(names@), page);
    let mut i: usize = 0;
    while i < names.len()
        invariant
            i <= names.len(),
            page < names.len(),
            wanted@ == entry_name(page),
            marks == stops(entry_names(names@), page),
            forall|j: int| 0 <= j < i ==> marks[j] != true,
        decreases names.len() - i,
    {
        match &names[i] {
            None => {
                proof {
                    lemma_first_found(marks, true, i as int);
                }
                return Located::Unreadable(i);
            },
            Some(name) => {
                if str_eq(name.as_str(), wanted.as_str()) {
                    proof {
                        lemma_first_found(marks, true, i as int);
                    }
                    return Located::Found(i);
                }
            },
        }
        i += 1;
    }
    proof {
        lemma_first_absent(marks, true);
    }
    Located::Absent
}

/// The layout with what its scan found: the names of the side table and
/// the items with their chapters.
#[derive(Debug, Clone)]
pub struct Dmzj {
    pub mapping: HashMap<usize, String>,
    pub zips: Vec<ZipGroup>,
}

impl Dmzj {
    /// Reads the side table `mapping`, and scans a listing of the storage
    /// root. Fails where the side table is malformed.
    pub fn new(entries: &Vec<WalkEntry>, mapping: &str) -> (r: Result<Dmzj, MappingError>)
        ensures
            match r {
                Ok(d) => {
                    &&& mapping_of(lines(mapping@)) == Some(name_map(d.mapping@))
                    &&& group_models(d.zips@) == archives(entry_models(entries@))
                    &&& d.wf()
                },
                Err(e) => {
                    &&& mapping_of(lines(mapping@)) is None
                    &&& e.line < lines(mapping@).len()
                    &&& mapping_line(lines(mapping@)[e.line as int]) is None
                    &&& forall|j: int|
                        0 <= j < e.line ==> mapping_line(#[trigger] lines(mapping@)[j]) is Some
                },
            },
    {
        match read_id_mapping(mapping) {
            Ok(names) => {
                let zips = read_all_zips(entries);
                proof {
                    lemma_archives(entry_models(entries@));
                }
                Ok(Dmzj { mapping: names, zips })
            },
            Err(e) => Err(e),
        }
    }
}

impl BackendTrait for Dmzj {
    /// Every item has a chapter.
    open spec fn wf(&self) -> bool {
        forall|k: int|
            0 <= k < self.zips@.len() ==> (#[trigger] group_models(self.zips@)[k]).chapters.len()
                >= 1
    }

    open spec fn catalog(&self) -> Seq<MangaModel> {
        put_all(
            Seq::<MangaModel>::empty(),
            entries_of(name_map(self.mapping@), group_models(self.zips@)),
        )
    }

    /// A page is looked for in the archive of its chapter, whatever the
    /// catalog holds.
    open spec fn page(
        &self,
        list: Seq<MangaModel>,
        base_path: Seq<char>,
        manga_id: Seq<char>,
        chapter: Seq<char>,
        pic_id: usize,
    ) -> Option<PagePlace> {
        Some(
            PagePlace::ArchiveEntry {
                archive: archive_path(base_path, manga_id, chapter),
                page: pic_id,
            },
        )
    }

    /// The pages of a chapter are counted in its archive, whatever the
    /// catalog holds.
    open spec fn chapter(
        &self,
        list: Seq<MangaModel>,
        base_path: Seq<char>,
        manga_id: Seq<char>,
        chapter: Seq<char>,
    ) -> Option<ChapterPlace> {
        Some(
            ChapterPlace::Archive {
                archive: archive_path(base_path, manga_id, chapter),
                name: chapter_title(chapter),
            },
        )
    }

    fn generate_manga_list(&self, path: &str) -> (list: MangaList) {
        broadcast use vstd::std_specs::hash::group_hash_axioms;

        let ghost names = name_map(self.mapping@);
        let ghost items = entries_of(names, group_models(self.zips@));
        let mut list = MangaList::new(path);
        let mut i: usize = 0;
        while i < self.zips.len()
            invariant
                i <= self.zips.len(),
                self.wf(),
                names == name_map(self.mapping@),
                items == entries_of(names, group_models(self.zips@)),
                list.list@ == put_all(Seq::<MangaModel>::empty(), items.take(i as int)),
                list.list.wf(),
                list.path@ == path@,
                list.all_basic_info is None,
            decreases self.zips.len() - i,
        {
            let g = &self.zips[i];
            assert(group_models(self.zips@)[i as int].chapters.len() >= 1);
            let id = number_id(g.id);
            let name = match self.mapping.get(&g.id) {
                Some(name) => name.clone(),
                None => number_id(g.id),
            };
            let first = number_id(g.chapters[0]);
            let pic = cover_ref(id.as_str(), first.as_str());
            let mut chapters: Vec<ChapterBasicInfo> = Vec::new();
            let mut j: usize = 0;
            while j < g.chapters.len()
                invariant
                    j <= g.chapters.len(),
                    chapter_models(chapters@) == chapters_of(g.chapters@).take(
                        j as int,
                    ),
                decreases g.chapters.len() - j,
            {
                let key = number_id(g.chapters[j]);
                let mut title = String::from_str("id:");
                title.append(key.as_str());
                let ghost had = chapter_models(chapters@);
                let chapter = ChapterBasicInfo { id: key, name: title, length: 0 };
                chapters.push(chapter);
                assert(chapter_models(chapters@) =~= had.push(chapters_of(g.chapters@)[j as int]));
                j += 1;
            }
            assert(chapters_of(g.chapters@).take(j as int) =~= chapters_of(g.chapters@));
            let info = MangaInfo { name, pic, id, chapters };
            proof {
                assert(items.take(i + 1).drop_last() =~= items.take(i as int));
            }
            list.list.insert(info);
            i += 1;
        }
        assert(items.take(i as int) =~= items);
        list
    }

    fn get_pic_in_chapter(
        &self,
        list: &MangaList,
        base_path: &str,
        manga_id: &str,
        chapter: &str,
        pic_id: usize,
    ) -> (r: Option<PageSource>) {
        Some(
            PageSource::ArchiveEntry {
                archive: archive_file(base_path, manga_id, chapter),
                page: pic_id,
            },
        )
    }

    fn get_chapter_info(
        &self,
        list: &MangaList,
        base_path: &str,
        manga_id: &str,
        chapter: &str,
    ) -> (r: Option<ChapterSource>) {
        let mut name = String::from_str("id:");
        name.append(chapter);
        Some(ChapterSource::Archive { archive: archive_file(base_path, manga_id, chapter), name })
    }
}

/// The catalog of a scan has one entry for each item of the listing, in
/// the order in which the items first occur; no two entries share an
/// identifier; the identifier of each entry is the decimal rendering of
/// the key of its item; the cover of each entry is page 0 of its first
/// chapter; and the chapters of each entry are in ascending order of their
/// keys.
pub proof fn lemma_catalog(d: Dmzj, entries: Seq<WalkEntryModel>)
    requires
        group_models(d.zips@) == archives(entries),
    ensures
        d.wf(),
        d.catalog() == entries_of(name_map(d.mapping@), archives(entries)),
        d.catalog().len() == occurring(item_keys(entries)).len(),
        unique_ids(d.catalog()),
        forall|k: int|
            0 <= k < d.catalog().len() ==> {
                &&& (#[trigger] d.catalog()[k]).id == number_key(archives(entries)[k].id)
                &&& d.catalog()[k].chapters.len() >= 1
                &&& d.catalog()[k].pic == cover(d.catalog()[k].id, d.catalog()[k].chapters[0].id)
                &&& d.catalog()[k].chapters == chapters_of(archives(entries)[k].chapters)
                &&& sorted_by(archives(entries)[k].chapters, num_order())
            },
{
    lemma_archives(entries);
    lemma_gathered(entries);
    lemma_first_seen(item_keys(entries));
    lemma_num_total();
    let groups = archives(entries);
    let items = entries_of(name_map(d.mapping@), groups);
    assert forall|a: int, b: int| 0 <= a < b < items.len() implies ids(items)[a]
        != ids(items)[b] by {
        assert(keys(groups)[a] != keys(groups)[b]);
        if number_key(groups[a].id) == number_key(groups[b].id) {
            lemma_decimal_injective(groups[a].id as nat, groups[b].id as nat);
        }
    }
    lemma_put_all_distinct(items);
    lemma_put_all(items);
    assert forall|k: int| 0 <= k < items.len() implies {
        &&& (#[trigger] items[k]).id == number_key(groups[k].id)
        &&& items[k].chapters.len() >= 1
        &&& items[k].pic == cover(items[k].id, items[k].chapters[0].id)
        &&& items[k].chapters == chapters_of(groups[k].chapters)
        &&& sorted_by(groups[k].chapters, num_order())
    } by {
        gathered(entries)[k].chapters.lemma_sort_by_ensures(num_order());
    }
}

/// Chapter keys that differ give chapter entries that differ in
/// identifier.
pub proof fn lemma_chapter_ids(keys: Seq<usize>)
    requires
        keys.no_duplicates(),
    ensures
        chapter_ids(chapters_of(keys)).no_duplicates(),
{
    let found = chapter_ids(chapters_of(keys));
    assert forall|a: int, b: int| 0 <= a < b < found.len() implies found[a] != found[b] by {
        if number_key(keys[a]) == number_key(keys[b]) {
            lemma_decimal_injective(keys[a] as nat, keys[b] as nat);
        }
    }
}

/// Two scans of the same listing with the same side table give the same
/// catalog, identifier for identifier.
pub proof fn lemma_rescan(a: Dmzj, b: Dmzj, entries: Seq<WalkEntryModel>, table: Seq<char>)
    requires
        group_models(a.zips@) == archives(entries),
        group_models(b.zips@) == archives(entries),
        mapping_of(lines(table)) == Some(name_map(a.mapping@)),
        mapping_of(lines(table)) == Some(name_map(b.mapping@)),
    ensures
        a.catalog() == b.catalog(),
        ids(a.catalog()) == ids(b.catalog()),
{
}

/// A page number from the number of entries on is never found. Below it,
/// a page is found at an entry that bears its name, and is found wherever
/// every name can be read and one of them is the name of the page.
pub proof fn lemma_locate(names: Seq<Option<Seq<char>>>, page: usize)
    requires
        names.len() <= usize::MAX,
    ensures
        page >= names.len() ==> locate(names, page) == Located::Absent,
        locate(names, page) matches Located::Found(j) ==> j < names.len() && names[j as int]
            == Some(entry_name(page)),
        locate(names, page) matches Located::Unreadable(j) ==> j < names.len()
            && names[j as int] is None,
        (page < names.len() && names.contains(Some(entry_name(page))) && forall|i: int|
            0 <= i < names.len() ==> (#[trigger] names[i]) is Some) ==> locate(
            names,
            page,
        ) is Found,
{
    let marks = stops(names, page);
    marks.index_of_first_ensures(true);
    if page < names.len() && names.contains(Some(entry_name(page))) {
        let w = choose|w: int| 0 <= w < names.len() && names[w] == Some(entry_name(page));
        assert(marks[w] == true);
    }
}

} // verus!
