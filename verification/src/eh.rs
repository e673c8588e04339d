//! The layout of one directory of images for each item: the images of a
//! directory, in the lexical order of their names, are the pages of the one
//! chapter of the item.

use crate::backend::{
    entry_models, BackendTrait, ChapterInfo, ChapterInfoModel, ChapterPlace, ChapterSource,
    PagePlace, PageSource, WalkEntry, WalkEntryModel,
};
use crate::group::{first_seen, lemma_first_absent, lemma_first_found, lemma_first_seen, occurring};
use crate::ident::{name_id, name_key, names_told_apart, told_apart};
use crate::manga_list::{
    cover, cover_ref, ids, ids_have_width, lemma_put_all, lemma_put_all_distinct, lemma_put_entries,
    lookup, put_all, unique_ids, ChapterBasicInfo, ChapterModel, MangaInfo, MangaList, MangaModel,
};
use crate::order::{lemma_sorted_distinct, lex_order, names, sort_names, strictly_ascending};
use crate::text::{
    components, extension, extension_chars, path_components, spells, str_eq, string_of, views,
};
use vstd::prelude::*;

verus! {

/// What is known of one item: its name and the names of its images.
pub struct FlatGroupModel {
    pub name: Seq<char>,
    pub pictures: Seq<Seq<char>>,
}

/// One item as the scan found it: the name of its directory and the names
/// of its images.
#[derive(Debug, Clone, PartialEq, Eq)]
pub struct MangaInfoLocal {
    pub name: String,
    pub pictures: Vec<String>,
}

impl View for MangaInfoLocal {
    type V = FlatGroupModel;

    open spec fn view(&self) -> FlatGroupModel {
        FlatGroupModel { name: self.name@, pictures: names(self.pictures@) }
    }
}

/// The items that `v` holds.
pub open spec fn group_models(v: Seq<MangaInfoLocal>) -> Seq<FlatGroupModel> {
    Seq::new(v.len(), |i: int| v[i]@)
}

/// The names of the items of `s`, in order.
pub open spec fn group_names(s: Seq<FlatGroupModel>) -> Seq<Seq<char>> {
    Seq::new(s.len(), |i: int| s[i].name)
}

/// Whether `ext` is the extension of an image of this layout.
pub open spec fn picture_extension(ext: Seq<char>) -> bool {
    ext == "png"@ || ext == "jpg"@
}

/// The item that a directory entry is an image of, and the name of the
/// image: an entry at depth 2 with the extension of an image belongs to
/// the item named by the component before its last.
pub open spec fn flat_place(e: WalkEntryModel) -> Option<(Seq<char>, Seq<char>)> {
    let n = components(e.path);
    if e.depth == 2 && n.len() >= 2 && picture_extension(extension(e.file_name)) {
        Some((n[n.len() - 2], e.file_name))
    } else {
        None
    }
}

/// The images `pictures` with the image `picture` among them: behind the
/// others, unless it is there already.
pub open spec fn with_one(pictures: Seq<Seq<char>>, picture: Seq<char>) -> Seq<Seq<char>> {
    if pictures.contains(picture) {
        pictures
    } else {
        pictures.push(picture)
    }
}

/// The items `groups` after the directory entry `e`.
pub open spec fn with_picture(groups: Seq<FlatGroupModel>, e: WalkEntryModel) -> Seq<
    FlatGroupModel,
> {
    match flat_place(e) {
        None => groups,
        Some((item, picture)) => match group_names(groups).index_of_first(item) {
            Some(k) => groups.update(
                k,
                FlatGroupModel { name: item, pictures: with_one(groups[k].pictures, picture) },
            ),
            None => groups.push(FlatGroupModel { name: item, pictures: seq![picture] }),
        },
    }
}

/// The items that a listing holds, in the order in which their names
/// first occur, each with its images in the order in which their names
/// first occur.
pub open spec fn gathered(entries: Seq<WalkEntryModel>) -> Seq<FlatGroupModel>
    decreases entries.len(),
{
    if entries.len() == 0 {
        Seq::<FlatGroupModel>::empty()
    } else {
        with_picture(gathered(entries.drop_last()), entries.last())
    }
}

/// The items `groups`, each with its images in lexical order.
pub open spec fn in_order(groups: Seq<FlatGroupModel>) -> Seq<FlatGroupModel> {
    Seq::new(
        groups.len(),
        |i: int|
            FlatGroupModel {
                name: groups[i].name,
                pictures: groups[i].pictures.sort_by(lex_order()),
            },
    )
}

/// The items of a listing, each with its images in lexical order.
pub open spec fn scan(entries: Seq<WalkEntryModel>) -> Seq<FlatGroupModel> {
    in_order(gathered(entries))
}

/// The name of the item that a directory entry is an image of, if it is
/// one.
pub open spec fn item_name(e: WalkEntryModel) -> Option<Seq<char>> {
    match flat_place(e) {
        Some((item, picture)) => Some(item),
        None => None,
    }
}

/// For each entry of a listing, the name of the item that it is an image
/// of.
pub open spec fn item_names(entries: Seq<WalkEntryModel>) -> Seq<Option<Seq<char>>> {
    Seq::new(entries.len(), |i: int| item_name(entries[i]))
}

/// What gathering never breaks: every item has an image and no more
/// images than `n`, and the images of an item differ in name and have the
/// extension of an image.
pub open spec fn sound(groups: Seq<FlatGroupModel>, n: int) -> bool {
    &&& forall|k: int|
        0 <= k < groups.len() ==> {
            &&& 1 <= (#[trigger] groups[k]).pictures.len() <= n
            &&& groups[k].pictures.no_duplicates()
        }
    &&& forall|k: int, j: int|
        0 <= k < groups.len() && 0 <= j < groups[k].pictures.len() ==> picture_extension(
            extension(#[trigger] groups[k].pictures[j]),
        )
}

/// One more image keeps the images of an item apart and recognized.
pub proof fn lemma_with_one(pictures: Seq<Seq<char>>, picture: Seq<char>)
    requires
        pictures.no_duplicates(),
        picture_extension(extension(picture)),
        forall|j: int|
            0 <= j < pictures.len() ==> picture_extension(extension(#[trigger] pictures[j])),
    ensures
        with_one(pictures, picture).no_duplicates(),
        pictures.len() <= with_one(pictures, picture).len() <= pictures.len() + 1,
        with_one(pictures, picture).len() >= 1,
        forall|j: int|
            0 <= j < with_one(pictures, picture).len() ==> picture_extension(
                extension(#[trigger] with_one(pictures, picture)[j]),
            ),
{
    let got = with_one(pictures, picture);
    if !pictures.contains(picture) {
        assert forall|j: int| 0 <= j < got.len() implies picture_extension(
            extension(#[trigger] got[j]),
        ) by {
            if j < pictures.len() {
                assert(got[j] == pictures[j]);
            }
        }
    }
}

/// The items gathered from a listing are the items that its images belong
/// to, each once, in the order in which they first occur; and gathering is
/// sound.
pub proof fn lemma_gathered(entries: Seq<WalkEntryModel>)
    ensures
        group_names(gathered(entries)) == first_seen(item_names(entries)),
        sound(gathered(entries), entries.len() as int),
    decreases entries.len(),
{
    let now = gathered(entries);
    let n = entries.len() as int;
    if entries.len() > 0 {
        let rest = entries.drop_last();
        let e = entries.last();
        let before = gathered(rest);
        lemma_gathered(rest);
        assert(item_names(entries).drop_last() =~= item_names(rest));
        match flat_place(e) {
            None => {
                assert(now == before);
            },
            Some((item, picture)) => {
                let ns = group_names(before);
                ns.index_of_first_ensures(item);
                match ns.index_of_first(item) {
                    Some(k) => {
                        assert(group_names(now) =~= ns);
                        lemma_with_one(before[k].pictures, picture);
                        assert forall|i: int| 0 <= i < now.len() implies {
                            &&& 1 <= (#[trigger] now[i]).pictures.len() <= n
                            &&& now[i].pictures.no_duplicates()
                        } by {
                            if i != k {
                                assert(now[i] == before[i]);
                            }
                        }
                        assert forall|i: int, j: int|
                            0 <= i < now.len() && 0 <= j < now[i].pictures.len()
                            implies picture_extension(extension(#[trigger] now[i].pictures[j])) by {
                            if i != k {
                                assert(now[i] == before[i]);
                                assert(picture_extension(extension(before[i].pictures[j])));
                            }
                        }
                    },
                    None => {
                        assert(group_names(now) =~= ns.push(item));
                        assert forall|i: int, j: int|
                            0 <= i < now.len() && 0 <= j < now[i].pictures.len()
                            implies picture_extension(extension(#[trigger] now[i].pictures[j])) by {
                            if i < before.len() {
                                assert(now[i] == before[i]);
                            }
                        }
                    },
                }
            },
        }
    } else {
        assert(group_names(now) =~= Seq::<Seq<char>>::empty());
    }
}

/// The items of a scan are the items that the images of the listing
/// belong to, each once, in the order in which they first occur; the
/// images of each are in strictly ascending lexical order, no more than
/// the listing has entries, and each has the extension of an image.
pub proof fn lemma_scan(entries: Seq<WalkEntryModel>)
    ensures
        group_names(scan(entries)) == first_seen(item_names(entries)),
        group_names(scan(entries)).no_duplicates(),
        forall|k: int|
            0 <= k < scan(entries).len() ==> {
                &&& strictly_ascending((#[trigger] scan(entries)[k]).pictures)
                &&& 1 <= scan(entries)[k].pictures.len() <= entries.len()
            },
        forall|k: int, j: int|
            0 <= k < scan(entries).len() && 0 <= j < scan(entries)[k].pictures.len()
                ==> picture_extension(extension(#[trigger] scan(entries)[k].pictures[j])),
{
    lemma_gathered(entries);
    lemma_first_seen(item_names(entries));
    let g = gathered(entries);
    let s = scan(entries);
    assert(group_names(s) =~= group_names(g));
    assert forall|k: int| 0 <= k < s.len() implies {
        &&& strictly_ascending((#[trigger] s[k]).pictures)
        &&& 1 <= s[k].pictures.len() <= entries.len()
    } by {
        lemma_sorted_distinct(g[k].pictures);
    }
    assert forall|k: int, j: int|
        0 <= k < s.len() && 0 <= j < s[k].pictures.len() implies picture_extension(
        extension(#[trigger] s[k].pictures[j]),
    ) by {
        lemma_sorted_distinct(g[k].pictures);
        let p = s[k].pictures[j];
        assert(s[k].pictures.contains(p));
        assert(g[k].pictures.contains(p));
        let w = choose|w: int| 0 <= w < g[k].pictures.len() && g[k].pictures[w] == p;
        assert(picture_extension(extension(g[k].pictures[w])));
    }
}

fn find_group(groups: &Vec<MangaInfoLocal>, name: &str) -> (r: Option<usize>)
    ensures
        match r {
            Some(k) => group_names(group_models(groups@)).index_of_first(name@) == Some(k as int)
                && k < groups.len(),
            None => group_names(group_models(groups@)).index_of_first(name@) is None,
        },
{
    let ghost ns = group_names(group_models(groups@));
    let mut k: usize = 0;
    while k < groups.len()
        invariant
            k <= groups.len(),
            ns == group_names(group_models(groups@)),
            forall|j: int| 0 <= j < k ==> ns[j] != name@,
        decreases groups.len() - k,
    {
        if str_eq(groups[k].name.as_str(), name) {
            proof {
                assert(ns[k as int] == name@);
                lemma_first_found(ns, name@, k as int);
            }
            return Some(k);
        }
        assert(ns[k as int] != name@);
        k += 1;
    }
    proof {
        lemma_first_absent(ns, name@);
    }
    None
}

fn has_picture(pictures: &Vec<String>, name: &str) -> (r: bool)
    ensures
        r == names(pictures@).contains(name@),
{
    let mut j: usize = 0;
    while j < pictures.len()
        invariant
            j <= pictures.len(),
            forall|m: int| 0 <= m < j ==> names(pictures@)[m] != name@,
        decreases pictures.len() - j,
    {
        if str_eq(pictures[j].as_str(), name) {
            assert(names(pictures@)[j as int] == name@);
            return true;
        }
        assert(names(pictures@)[j as int] != name@);
        j += 1;
    }
    false
}

/// Reads off a directory entry the item that it is an image of.
pub fn place_of(e: &WalkEntry) -> (r: Option<String>)
    ensures
        match r {
            Some(item) => flat_place(e@) == Some((item@, e@.file_name)),
            None => flat_place(e@) is None,
        },
{
    if e.depth != 2 {
        return None;
    }
    let n = path_components(e.path.as_str());
    if n.len() < 2 {
        return None;
    }
    let ext = extension_chars(e.file_name.as_str());
    if !(spells(&ext, "png") || spells(&ext, "jpg")) {
        return None;
    }
    assert(views(n@)[n.len() - 2] == n@[n.len() - 2]@);
    Some(string_of(&n[n.len() - 2]))
}

/// Gathers the items of a listing, and puts the images of each in lexical
/// order.
pub fn read_all_infos(entries: &Vec<WalkEntry>) -> (out: Vec<MangaInfoLocal>)
    ensures
        group_models(out@) == scan(entry_models(entries@)),
{
    let ghost all = entry_models(entries@);
    let mut out: Vec<MangaInfoLocal> = Vec::new();
    let mut i: usize = 0;
    assert(all.take(0) =~= Seq::<WalkEntryModel>::empty());
    assert(group_models(out@) =~= gathered(all.take(0)));
    while i < entries.len()
        invariant
            i <= entries.len(),
            all == entry_models(entries@),
            group_models(out@) == gathered(all.take(i as int)),
        decreases entries.len() - i,
    {
        let e = &entries[i];
        let ghost before = group_models(out@);
        proof {
            assert(all.take(i + 1).drop_last() =~= all.take(i as int));
            assert(all.take(i + 1).last() == e@);
        }
        match place_of(e) {
            Some(item) => {
                match find_group(&out, item.as_str()) {
                    Some(k) => {
                        let ghost had = before[k as int].pictures;
                        proof {
                            group_names(before).index_of_first_ensures(item@);
                            assert(group_names(before)[k as int] == item@);
                        }
                        if !has_picture(&out[k].pictures, e.file_name.as_str()) {
                            out[k].pictures.push(e.file_name.clone());
                            assert(names(out@[k as int].pictures@) =~= had.push(e@.file_name));
                        }
                    },
                    None => {
                        let ghost item_name = item@;
                        let mut pictures: Vec<String> = Vec::new();
                        pictures.push(e.file_name.clone());
                        let group = MangaInfoLocal { name: item, pictures };
                        assert(group@.pictures =~= seq![e@.file_name]);
                        out.push(group);
                        assert(group_models(out@) =~= before.push(
                            FlatGroupModel { name: item_name, pictures: seq![e@.file_name] },
                        ));
                    },
                }
            },
            None => {},
        }
        i += 1;
    }
    assert(all.take(i as int) =~= all);
    let ghost found = group_models(out@);
    let mut k: usize = 0;
    while k < out.len()
        invariant
            k <= out.len(),
            out.len() == found.len(),
            forall|j: int| 0 <= j < k ==> (#[trigger] group_models(out@)[j]) == in_order(found)[j],
            forall|j: int| k <= j < out.len() ==> (#[trigger] group_models(out@)[j]) == found[j],
        decreases out.len() - k,
    {
        let ghost had = group_models(out@);
        sort_names(&mut out[k].pictures);
        proof {
            assert forall|j: int| 0 <= j < k + 1 implies (#[trigger] group_models(out@)[j])
                == in_order(found)[j] by {
                if j < k {
                    assert(group_models(out@)[j] == had[j]);
                } else {
                    assert(had[j] == found[j]);
                }
            }
            assert forall|j: int| k + 1 <= j < out.len() implies (#[trigger] group_models(out@)[j])
                == found[j] by {
                assert(group_models(out@)[j] == had[j]);
            }
        }
        k += 1;
    }
    out
}

/// The catalog entry of the item `g`: found under the identifier of its
/// name, with one chapter `single` that holds all its images.
pub open spec fn entry_of(g: FlatGroupModel) -> MangaModel {
    let id = name_key(g.name);
    MangaModel {
        name: g.name,
        pic: cover(id, "single"@),
        id,
        chapters: seq![
            ChapterModel { id: "single"@, name: "single"@, length: g.pictures.len() as usize },
        ],
    }
}

/// The catalog entries of the items `gs`, in order.
pub open spec fn entries_of(gs: Seq<FlatGroupModel>) -> Seq<MangaModel> {
    Seq::new(gs.len(), |i: int| entry_of(gs[i]))
}

/// The item of `gs` named `name`.
pub open spec fn group_named(gs: Seq<FlatGroupModel>, name: Seq<char>) -> Option<FlatGroupModel> {
    match group_names(gs).index_of_first(name) {
        Some(k) => Some(gs[k]),
        None => None,
    }
}

/// The path of the image `picture` of the item `item`.
pub open spec fn picture_file(base_path: Seq<char>, item: Seq<char>, picture: Seq<char>) -> Seq<
    char,
> {
    base_path + "/"@ + item + "/"@ + picture
}

/// The layout with what its scan found.
#[derive(Debug, Clone)]
pub struct Eh {
    pub info: Vec<MangaInfoLocal>,
}

impl Eh {
    /// Scans a listing of the storage root.
    pub fn new(entries: &Vec<WalkEntry>) -> (r: Eh)
        ensures
            group_models(r.info@) == scan(entry_models(entries@)),
    {
        Eh { info: read_all_infos(entries) }
    }

    /// Tests whether no two items have names with the same identifier.
    pub fn names_told_apart(&self) -> (r: bool)
        ensures
            r == told_apart(group_names(group_models(self.info@))),
    {
        let ghost given = group_names(group_models(self.info@));
        let mut item_names: Vec<String> = Vec::new();
        let mut i: usize = 0;
        while i < self.info.len()
            invariant
                i <= self.info.len(),
                given == group_names(group_models(self.info@)),
                names(item_names@) == given.take(i as int),
            decreases self.info.len() - i,
        {
            let ghost had = names(item_names@);
            item_names.push(self.info[i].name.clone());
            assert(names(item_names@) =~= had.push(given[i as int]));
            i += 1;
        }
        assert(given.take(i as int) =~= given);
        names_told_apart(&item_names)
    }
}

impl BackendTrait for Eh {
    open spec fn wf(&self) -> bool {
        true
    }

    open spec fn catalog(&self) -> Seq<MangaModel> {
        put_all(Seq::<MangaModel>::empty(), entries_of(group_models(self.info@)))
    }

    /// A page is there where the catalog has the item, the scan has an
    /// item of its name, and the number is below the number of its images.
    open spec fn page(
        &self,
        list: Seq<MangaModel>,
        base_path: Seq<char>,
        manga_id: Seq<char>,
        chapter: Seq<char>,
        pic_id: usize,
    ) -> Option<PagePlace> {
        match lookup(list, manga_id) {
            Some(m) => match group_named(group_models(self.info@), m.name) {
                Some(g) => if pic_id < g.pictures.len() {
                    Some(
                        PagePlace::File {
                            path: picture_file(base_path, m.name, g.pictures[pic_id as int]),
                        },
                    )
                } else {
                    None
                },
                None => None,
            },
            None => None,
        }
    }

    /// The one chapter of an item is the first of its catalog entry.
    open spec fn chapter(
        &self,
        list: Seq<MangaModel>,
        base_path: Seq<char>,
        manga_id: Seq<char>,
        chapter: Seq<char>,
    ) -> Option<ChapterPlace> {
        match lookup(list, manga_id) {
            Some(m) => if m.chapters.len() > 0 {
                Some(
                    ChapterPlace::Known {
                        info: ChapterInfoModel { length: m.chapters[0].length, name: "single"@ },
                    },
                )
            } else {
                None
            },
            None => None,
        }
    }

    /// Every identifier of an entry of the catalog has 32 characters.
    fn generate_manga_list(&self, path: &str) -> (list: MangaList)
        ensures
            ids_have_width(list.list@, 32),
    {
        let ghost items = entries_of(group_models(self.info@));
        let mut list = MangaList::new(path);
        let mut i: usize = 0;
        assert(items.take(0) =~= Seq::<MangaModel>::empty());
        while i < self.info.len()
            invariant
                i <= self.info.len(),
                items == entries_of(group_models(self.info@)),
                list.list@ == put_all(Seq::<MangaModel>::empty(), items.take(i as int)),
                list.list.wf(),
                list.path@ == path@,
                list.all_basic_info is None,
                ids_have_width(list.list@, 32),
            decreases self.info.len() - i,
        {
            let g = &self.info[i];
            let id = name_id(g.name.as_str());
            let pic = cover_ref(id.as_str(), "single");
            let mut chapters: Vec<ChapterBasicInfo> = Vec::new();
            chapters.push(
                ChapterBasicInfo {
                    id: String::from_str("single"),
                    name: String::from_str("single"),
                    length: g.pictures.len(),
                },
            );
            let info = MangaInfo { name: g.name.clone(), pic, id, chapters };
            proof {
                assert(info@.chapters =~= entry_of(g@).chapters);
                assert(info@ == items[i as int]);
                assert(items.take(i + 1).drop_last() =~= items.take(i as int));
                lemma_put_entries(list.list@, info@);
            }
            list.list.insert(info);
            i += 1;
        }
        assert(items.take(i as int) =~= items);
        list
    }

    fn get_pic_in_chapter(
        &self,
        list: &MangaList,
        base_path: &str,
        manga_id: &str,
        chapter: &str,
        pic_id: usize,
    ) -> (r: Option<PageSource>) {
        let m = match list.list.get(manga_id) {
            Some(m) => m,
            None => {
                return None;
            },
        };
        let g = match find_group(&self.info, m.name.as_str()) {
            Some(k) => &self.info[k],
            None => {
                return None;
            },
        };
        if pic_id >= g.pictures.len() {
            return None;
        }
        let mut path = base_path.to_owned();
        path.append("/");
        path.append(m.name.as_str());
        path.append("/");
        path.append(g.pictures[pic_id].as_str());
        Some(PageSource::File { path })
    }

    fn get_chapter_info(
        &self,
        list: &MangaList,
        base_path: &str,
        manga_id: &str,
        chapter: &str,
    ) -> (r: Option<ChapterSource>) {
        let m = match list.list.get(manga_id) {
            Some(m) => m,
            None => {
                return None;
            },
        };
        if m.chapters.len() > 0 {
            Some(
                ChapterSource::Known {
                    info: ChapterInfo {
                        length: m.chapters[0].length,
                        name: String::from_str("single"),
                    },
                },
            )
        } else {
            None
        }
    }
}

/// Where no two items of the listing have names with the same identifier,
/// the catalog of a scan has one entry for each item of the listing, in
/// the order in which the items first occur; no two entries share an
/// identifier; the identifier of each entry is that of its name; and each
/// entry has one chapter, which counts the images of the item and whose
/// page 0 is the cover.
pub proof fn lemma_catalog(eh: Eh, entries: Seq<WalkEntryModel>)
    requires
        group_models(eh.info@) == scan(entries),
        entries.len() <= usize::MAX,
        told_apart(group_names(scan(entries))),
    ensures
        eh.catalog() == entries_of(scan(entries)),
        eh.catalog().len() == occurring(item_names(entries)).len(),
        unique_ids(eh.catalog()),
        forall|k: int|
            0 <= k < eh.catalog().len() ==> {
                &&& (#[trigger] eh.catalog()[k]).id == name_key(eh.catalog()[k].name)
                &&& eh.catalog()[k].chapters.len() == 1
                &&& eh.catalog()[k].pic == cover(eh.catalog()[k].id, eh.catalog()[k].chapters[0].id)
                &&& eh.catalog()[k].chapters[0].length == scan(entries)[k].pictures.len()
            },
{
    lemma_scan(entries);
    lemma_first_seen(item_names(entries));
    let groups = scan(entries);
    let items = entries_of(groups);
    assert forall|a: int, b: int| 0 <= a < b < items.len() implies ids(items)[a]
        != ids(items)[b] by {
        assert(name_key(group_names(groups)[a]) != name_key(group_names(groups)[b]));
    }
    lemma_put_all_distinct(items);
    lemma_put_all(items);
}

/// Two scans of the same listing give the same catalog, identifier for
/// identifier.
pub proof fn lemma_rescan(a: Eh, b: Eh, entries: Seq<WalkEntryModel>)
    requires
        group_models(a.info@) == scan(entries),
        group_models(b.info@) == scan(entries),
    ensures
        a.catalog() == b.catalog(),
        ids(a.catalog()) == ids(b.catalog()),
{
}

/// Where no two items of the listing have names with the same identifier:
/// for an entry of the catalog of a scan, a page is found exactly where
/// its number is below the number of pages of the one chapter.
pub proof fn lemma_pages(
    eh: Eh,
    entries: Seq<WalkEntryModel>,
    base_path: Seq<char>,
    k: int,
    chapter: Seq<char>,
    pic_id: usize,
)
    requires
        group_models(eh.info@) == scan(entries),
        entries.len() <= usize::MAX,
        told_apart(group_names(scan(entries))),
        0 <= k < eh.catalog().len(),
    ensures
        eh.chapter(eh.catalog(), base_path, eh.catalog()[k].id, chapter) matches Some(
            ChapterPlace::Known { info },
        ) && (eh.page(eh.catalog(), base_path, eh.catalog()[k].id, chapter, pic_id) is Some
            <==> pic_id < info.length),
{
    lemma_catalog(eh, entries);
    lemma_scan(entries);
    let list = eh.catalog();
    let groups = scan(entries);
    let m = list[k];
    lemma_first_found(ids(list), m.id, k);
    assert(group_names(groups)[k] == m.name);
    assert forall|j: int| 0 <= j < k implies group_names(groups)[j] != m.name by {
    }
    lemma_first_found(group_names(groups), m.name, k);
}

} // verus!
