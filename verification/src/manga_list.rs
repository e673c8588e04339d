//! The catalog: one entry per item, found by its identifier, each with its
//! chapters in reading order; and the listing derived from it.

use crate::group::{lemma_first_absent, lemma_first_found};
use crate::text::str_eq;
use vstd::prelude::*;

verus! {

/// What a chapter entry says.
pub struct ChapterModel {
    pub id: Seq<char>,
    pub name: Seq<char>,
    pub length: usize,
}

/// What a catalog entry says.
pub struct MangaModel {
    pub name: Seq<char>,
    pub pic: Seq<char>,
    pub id: Seq<char>,
    pub chapters: Seq<ChapterModel>,
}

/// What a line of the listing says.
pub struct SummaryModel {
    pub name: Seq<char>,
    pub pic: Seq<char>,
    pub id: Seq<char>,
    pub first: Seq<char>,
}

/// One chapter of an item: its identifier, its name and its number of pages.
#[derive(Debug, Clone, PartialEq, Eq)]
pub struct ChapterBasicInfo {
    pub id: String,
    pub name: String,
    pub length: usize,
}

/// One item of the catalog. `pic` points at the cover, `chapters` are in
/// reading order.
#[derive(Debug, Clone, PartialEq, Eq)]
pub struct MangaInfo {
    pub name: String,
    pub pic: String,
    pub id: String,
    pub chapters: Vec<ChapterBasicInfo>,
}

/// One line of the listing: an item's name, cover and identifier, and the
/// identifier of its first chapter (empty where it has no chapter).
#[derive(Debug, Clone, PartialEq, Eq)]
pub struct MangaBasicInfo {
    pub name: String,
    pub pic: String,
    pub id: String,
    pub first: String,
}

impl View for ChapterBasicInfo {
    type V = ChapterModel;

    open spec fn view(&self) -> ChapterModel {
        ChapterModel { id: self.id@, name: self.name@, length: self.length }
    }
}

/// The chapters that `v` holds.
pub open spec fn chapter_models(v: Seq<ChapterBasicInfo>) -> Seq<ChapterModel> {
    Seq::new(v.len(), |i: int| v[i]@)
}

impl View for MangaInfo {
    type V = MangaModel;

    open spec fn view(&self) -> MangaModel {
        MangaModel {
            name: self.name@,
            pic: self.pic@,
            id: self.id@,
            chapters: chapter_models(self.chapters@),
        }
    }
}

/// The entries that `v` holds.
pub open spec fn manga_models(v: Seq<MangaInfo>) -> Seq<MangaModel> {
    Seq::new(v.len(), |i: int| v[i]@)
}

impl View for MangaBasicInfo {
    type V = SummaryModel;

    open spec fn view(&self) -> SummaryModel {
        SummaryModel { name: self.name@, pic: self.pic@, id: self.id@, first: self.first@ }
    }
}

/// The lines that `v` holds.
pub open spec fn summary_models(v: Seq<MangaBasicInfo>) -> Seq<SummaryModel> {
    Seq::new(v.len(), |i: int| v[i]@)
}

/// The identifiers of the entries of `s`, in order.
pub open spec fn ids(s: Seq<MangaModel>) -> Seq<Seq<char>> {
    Seq::new(s.len(), |i: int| s[i].id)
}

/// The identifiers of the chapters of `s`, in order.
pub open spec fn chapter_ids(s: Seq<ChapterModel>) -> Seq<Seq<char>> {
    Seq::new(s.len(), |i: int| s[i].id)
}

/// No two entries of `s` share an identifier.
pub open spec fn unique_ids(s: Seq<MangaModel>) -> bool {
    ids(s).no_duplicates()
}

/// The entry of `s` with identifier `id`, if there is one.
pub open spec fn lookup(s: Seq<MangaModel>, id: Seq<char>) -> Option<MangaModel> {
    match ids(s).index_of_first(id) {
        Some(i) => Some(s[i]),
        None => None,
    }
}

/// The first chapter of `s` with identifier `id`, if there is one.
pub open spec fn lookup_chapter(s: Seq<ChapterModel>, id: Seq<char>) -> Option<ChapterModel> {
    match chapter_ids(s).index_of_first(id) {
        Some(i) => Some(s[i]),
        None => None,
    }
}

/// `s` with the entry `m` put in: in the place of the entry that had its
/// identifier, or behind all others where none had.
pub open spec fn put(s: Seq<MangaModel>, m: MangaModel) -> Seq<MangaModel> {
    match ids(s).index_of_first(m.id) {
        Some(i) => s.update(i, m),
        None => s.push(m),
    }
}

/// `s` with the entries `items` put in, one after the other.
pub open spec fn put_all(s: Seq<MangaModel>, items: Seq<MangaModel>) -> Seq<MangaModel>
    decreases items.len(),
{
    if items.len() == 0 {
        s
    } else {
        put(put_all(s, items.drop_last()), items.last())
    }
}

/// The reference to the cover of an item: page 0 of the chapter `chapter`
/// of the item `id`.
pub open spec fn cover(id: Seq<char>, chapter: Seq<char>) -> Seq<char> {
    "/manga/"@ + id + "/"@ + chapter + "/0"@
}

/// Writes the reference to page 0 of the chapter `chapter` of the item `id`.
pub fn cover_ref(id: &str, chapter: &str) -> (r: String)
    ensures
        r@ == cover(id@, chapter@),
{
    let mut r = String::from_str("/manga/");
    r.append(id);
    r.append("/");
    r.append(chapter);
    r.append("/0");
    r
}

/// Every entry of `s` has an identifier of `n` characters.
pub open spec fn ids_have_width(s: Seq<MangaModel>, n: nat) -> bool {
    forall|k: int| 0 <= k < s.len() ==> (#[trigger] s[k]).id.len() == n
}

/// Every chapter of every entry of `s` has an identifier of `n`
/// characters.
pub open spec fn chapter_ids_have_width(s: Seq<MangaModel>, n: nat) -> bool {
    forall|k: int, j: int|
        0 <= k < s.len() && 0 <= j < s[k].chapters.len() ==> (#[trigger] s[k].chapters[j]).id.len()
            == n
}

/// The listing line of the entry `m`.
pub open spec fn summary_of(m: MangaModel) -> SummaryModel {
    SummaryModel {
        name: m.name,
        pic: m.pic,
        id: m.id,
        first: if m.chapters.len() > 0 {
            m.chapters[0].id
        } else {
            Seq::<char>::empty()
        },
    }
}

/// The listing of the entries `s`: one line for each, in their order.
pub open spec fn summaries(s: Seq<MangaModel>) -> Seq<SummaryModel> {
    Seq::new(s.len(), |i: int| summary_of(s[i]))
}

/// Putting an entry into a sequence without shared identifiers leaves one
/// without shared identifiers, in which the entry is found by its identifier
/// and every other identifier finds what it found before.
pub proof fn lemma_put(s: Seq<MangaModel>, m: MangaModel)
    requires
        unique_ids(s),
    ensures
        unique_ids(put(s, m)),
        lookup(put(s, m), m.id) == Some(m),
        forall|id: Seq<char>| id != m.id ==> lookup(put(s, m), id) == lookup(s, id),
        put(s, m).len() == if lookup(s, m.id) is Some {
            s.len()
        } else {
            s.len() + 1
        },
{
    let t = put(s, m);
    ids(s).index_of_first_ensures(m.id);
    match ids(s).index_of_first(m.id) {
        Some(i) => {
            assert(ids(t) =~= ids(s));
        },
        None => {
            assert(ids(t) =~= ids(s).push(m.id));
        },
    }
    assert forall|id: Seq<char>| true implies (if id == m.id {
        lookup(t, id) == Some(m)
    } else {
        lookup(t, id) == lookup(s, id)
    }) by {
        ids(s).index_of_first_ensures(id);
        ids(t).index_of_first_ensures(id);
        if ids(t).index_of_first(id) is None {
            if id == m.id {
                if ids(s).index_of_first(m.id) is None {
                    assert(ids(t)[s.len() as int] == id);
                }
            } else if ids(s).index_of_first(id) is Some {
                let k = ids(s).index_of_first(id).unwrap();
                assert(ids(t)[k] == id);
            }
        }
    }
}

/// Putting an entry in adds nothing but that entry: what holds of it and
/// of every entry that was there holds of every entry afterwards.
pub proof fn lemma_put_entries(s: Seq<MangaModel>, m: MangaModel)
    ensures
        forall|k: int|
            0 <= k < put(s, m).len() ==> (#[trigger] put(s, m)[k]) == m || (k < s.len() && put(
                s,
                m,
            )[k] == s[k]),
{
    ids(s).index_of_first_ensures(m.id);
}

/// The listing that a catalog answers with: the one it holds, or, where it
/// holds none, the one built from its entries.
pub open spec fn collected(held: Option<Seq<SummaryModel>>, entries: Seq<MangaModel>) -> Seq<
    SummaryModel,
> {
    match held {
        Some(lines) => lines,
        None => summaries(entries),
    }
}

/// Entries put one after the other into an empty catalog: no two of the
/// catalog share an identifier, each is one of those put in, the
/// identifiers are those put in, and there are as many entries as
/// identifiers that differ.
pub proof fn lemma_put_all(items: Seq<MangaModel>)
    ensures
        unique_ids(put_all(Seq::<MangaModel>::empty(), items)),
        forall|k: int|
            0 <= k < put_all(Seq::<MangaModel>::empty(), items).len() ==> items.contains(
                #[trigger] put_all(Seq::<MangaModel>::empty(), items)[k],
            ),
        ids(put_all(Seq::<MangaModel>::empty(), items)).to_set() == ids(items).to_set(),
        put_all(Seq::<MangaModel>::empty(), items).len() == ids(items).to_set().len(),
    decreases items.len(),
{
    let none = Seq::<MangaModel>::empty();
    let now = put_all(none, items);
    if items.len() == 0 {
        ids(now).unique_seq_to_set();
    } else {
        let rest = items.drop_last();
        let m = items.last();
        let before = put_all(none, rest);
        lemma_put_all(rest);
        lemma_put(before, m);
        ids(before).index_of_first_ensures(m.id);
        assert forall|k: int| 0 <= k < now.len() implies items.contains(#[trigger] now[k]) by {
            if now[k] != m {
                assert(rest.contains(before[k]));
            }
        }
        assert(ids(items) =~= ids(rest).push(m.id));
        assert(ids(now).to_set() =~= ids(before).to_set().insert(m.id)) by {
            assert forall|id: Seq<char>| ids(now).to_set().contains(id) <==> ids(
                before,
            ).to_set().insert(m.id).contains(id) by {
                if ids(now).contains(id) && id != m.id {
                    let w = choose|w: int| 0 <= w < now.len() && ids(now)[w] == id;
                    assert(ids(before)[w] == id);
                }
                if ids(before).contains(id) {
                    let w = choose|w: int| 0 <= w < before.len() && ids(before)[w] == id;
                    assert(ids(now)[w] == id);
                }
                if id == m.id && ids(before).index_of_first(m.id) is None {
                    assert(ids(now)[before.len() as int] == id);
                }
            }
        }
        assert(ids(items).to_set() =~= ids(rest).to_set().insert(m.id)) by {
            assert forall|id: Seq<char>| ids(items).to_set().contains(id) <==> ids(
                rest,
            ).to_set().insert(m.id).contains(id) by {
                if ids(rest).contains(id) {
                    let w = choose|w: int| 0 <= w < rest.len() && ids(rest)[w] == id;
                    assert(ids(items)[w] == id);
                }
                if id == m.id {
                    assert(ids(items)[items.len() - 1] == id);
                }
            }
        }
        ids(now).unique_seq_to_set();
    }
}

/// Entries with identifiers that all differ, put one after the other into
/// an empty catalog, are the catalog.
pub proof fn lemma_put_all_distinct(items: Seq<MangaModel>)
    requires
        ids(items).no_duplicates(),
    ensures
        put_all(Seq::<MangaModel>::empty(), items) == items,
    decreases items.len(),
{
    if items.len() > 0 {
        let rest = items.drop_last();
        let m = items.last();
        assert(ids(rest) =~= ids(items).drop_last());
        lemma_put_all_distinct(rest);
        assert forall|j: int| 0 <= j < rest.len() implies ids(rest)[j] != m.id by {
            assert(ids(items)[j] != ids(items)[items.len() - 1]);
        }
        lemma_first_absent(ids(rest), m.id);
    }
}

/// Where several entries put into an empty catalog share an identifier,
/// the last of them is the one that is found.
pub proof fn lemma_put_all_last(items: Seq<MangaModel>, j: int)
    requires
        0 <= j < items.len(),
        forall|k: int| j < k < items.len() ==> (#[trigger] items[k]).id != items[j].id,
    ensures
        lookup(put_all(Seq::<MangaModel>::empty(), items), items[j].id) == Some(items[j]),
    decreases items.len(),
{
    let none = Seq::<MangaModel>::empty();
    let rest = items.drop_last();
    let m = items.last();
    lemma_put_all(rest);
    lemma_put(put_all(none, rest), m);
    if j < items.len() - 1 {
        lemma_put_all_last(rest, j);
    }
}

/// Once a listing was built, asking again gives the same listing, whatever
/// has become of the entries since.
pub proof fn lemma_listing_built_once(
    held: Option<Seq<SummaryModel>>,
    entries: Seq<MangaModel>,
    later: Seq<MangaModel>,
)
    ensures
        collected(Some(collected(held, entries)), later) == collected(held, entries),
        held is None ==> collected(held, entries) == summaries(entries),
        summaries(entries).len() == entries.len(),
{
}

impl ChapterBasicInfo {
    /// A chapter entry that says the same.
    pub fn duplicate(&self) -> (r: ChapterBasicInfo)
        ensures
            r@ == self@,
    {
        ChapterBasicInfo { id: self.id.clone(), name: self.name.clone(), length: self.length }
    }
}

impl MangaInfo {
    /// The first chapter with identifier `id`.
    pub fn chapter(&self, id: &str) -> (r: Option<&ChapterBasicInfo>)
        ensures
            match r {
                Some(c) => lookup_chapter(self@.chapters, id@) == Some(c@),
                None => lookup_chapter(self@.chapters, id@) is None,
            },
    {
        let ghost keys = chapter_ids(self@.chapters);
        let mut i: usize = 0;
        while i < self.chapters.len()
            invariant
                i <= self.chapters.len(),
                keys == chapter_ids(self@.chapters),
                forall|j: int| 0 <= j < i ==> keys[j] != id@,
            decreases self.chapters.len() - i,
        {
            if str_eq(self.chapters[i].id.as_str(), id) {
                proof {
                    lemma_first_found(keys, id@, i as int);
                }
                return Some(&self.chapters[i]);
            }
            i += 1;
        }
        proof {
            lemma_first_absent(keys, id@);
        }
        None
    }

    /// A catalog entry that says the same.
    pub fn duplicate(&self) -> (r: MangaInfo)
        ensures
            r@ == self@,
    {
        let mut chapters: Vec<ChapterBasicInfo> = Vec::new();
        let mut j: usize = 0;
        while j < self.chapters.len()
            invariant
                j <= self.chapters.len(),
                chapter_models(chapters@) == chapter_models(self.chapters@).take(j as int),
            decreases self.chapters.len() - j,
        {
            let ghost had = chapter_models(chapters@);
            let copy = self.chapters[j].duplicate();
            chapters.push(copy);
            assert(chapter_models(chapters@) =~= had.push(
                chapter_models(self.chapters@)[j as int],
            ));
            j += 1;
        }
        assert(chapter_models(chapters@) =~= chapter_models(self.chapters@));
        MangaInfo {
            name: self.name.clone(),
            pic: self.pic.clone(),
            id: self.id.clone(),
            chapters,
        }
    }

    /// The listing line of this entry.
    pub fn summary(&self) -> (r: MangaBasicInfo)
        ensures
            r@ == summary_of(self@),
    {
        let first = if self.chapters.len() > 0 {
            self.chapters[0].id.clone()
        } else {
            String::new()
        };
        MangaBasicInfo {
            name: self.name.clone(),
            pic: self.pic.clone(),
            id: self.id.clone(),
            first,
        }
    }
}

impl MangaBasicInfo {
    /// A listing line that says the same.
    pub fn duplicate(&self) -> (r: MangaBasicInfo)
        ensures
            r@ == self@,
    {
        MangaBasicInfo {
            name: self.name.clone(),
            pic: self.pic.clone(),
            id: self.id.clone(),
            first: self.first.clone(),
        }
    }
}

/// The entries of a catalog, found by identifier. No two entries share an
/// identifier; the entries keep the order in which their identifiers first
/// came in.
pub struct MangaMap {
    entries: Vec<MangaInfo>,
}

impl View for MangaMap {
    type V = Seq<MangaModel>;

    closed spec fn view(&self) -> Seq<MangaModel> {
        manga_models(self.entries@)
    }
}

impl MangaMap {
    /// The invariant of the type: identifiers are unique, and the entries
    /// can be counted.
    pub open spec fn wf(&self) -> bool {
        unique_ids(self@)
    }

    pub fn new() -> (r: MangaMap)
        ensures
            r@ == Seq::<MangaModel>::empty(),
            r.wf(),
    {
        let r = MangaMap { entries: Vec::new() };
        r
    }

    /// The number of entries.
    pub fn len(&self) -> (n: usize)
        ensures
            n == self@.len(),
    {
        self.entries.len()
    }

    /// The entry at position `i`.
    pub fn entry(&self, i: usize) -> (r: Option<&MangaInfo>)
        ensures
            match r {
                Some(m) => i < self@.len() && m@ == self@[i as int],
                None => i >= self@.len(),
            },
    {
        if i < self.entries.len() {
            Some(&self.entries[i])
        } else {
            None
        }
    }

    fn position(&self, id: &str) -> (r: Option<usize>)
        ensures
            match r {
                Some(i) => ids(self@).index_of_first(id@) == Some(i as int) && i < self@.len(),
                None => ids(self@).index_of_first(id@) is None,
            },
    {
        let ghost keys = ids(self@);
        let mut i: usize = 0;
        while i < self.entries.len()
            invariant
                i <= self.entries.len(),
                keys == ids(self@),
                forall|j: int| 0 <= j < i ==> keys[j] != id@,
            decreases self.entries.len() - i,
        {
            if str_eq(self.entries[i].id.as_str(), id) {
                proof {
                    lemma_first_found(keys, id@, i as int);
                }
                return Some(i);
            }
            i += 1;
        }
        proof {
            lemma_first_absent(keys, id@);
        }
        None
    }

    /// The entry with identifier `id`.
    pub fn get(&self, id: &str) -> (r: Option<&MangaInfo>)
        ensures
            match r {
                Some(m) => lookup(self@, id@) == Some(m@),
                None => lookup(self@, id@) is None,
            },
    {
        match self.position(id) {
            Some(i) => Some(&self.entries[i]),
            None => None,
        }
    }

    /// Whether an entry has identifier `id`.
    pub fn contains_key(&self, id: &str) -> (r: bool)
        ensures
            r == lookup(self@, id@) is Some,
    {
        self.position(id).is_some()
    }

    /// Puts `info` in, under its own identifier. An entry that had the
    /// identifier is replaced and handed back.
    pub fn insert(&mut self, info: MangaInfo) -> (r: Option<MangaInfo>)
        requires
            old(self).wf(),
        ensures
            final(self)@ == put(old(self)@, info@),
            final(self).wf(),
            match r {
                Some(m) => lookup(old(self)@, info@.id) == Some(m@),
                None => lookup(old(self)@, info@.id) is None,
            },
    {
        proof {
            lemma_put(self@, info@);
        }
        match self.position(info.id.as_str()) {
            Some(i) => {
                let mut slot = info;
                self.entries.push(slot);
                let taken = self.entries.swap_remove(i);
                Some(taken)
            },
            None => {
                self.entries.push(info);
                None
            },
        }
    }
}

/// A catalog: the entries, the storage root they were found under, and the
/// listing once it has been asked for.
pub struct MangaList {
    pub list: MangaMap,
    pub path: String,
    pub all_basic_info: Option<Vec<MangaBasicInfo>>,
}

impl MangaList {
    /// The listing that is held, if one is.
    pub open spec fn cached(&self) -> Option<Seq<SummaryModel>> {
        match self.all_basic_info {
            Some(v) => Some(summary_models(v@)),
            None => None,
        }
    }

    /// An empty catalog for the storage root `path`.
    pub fn new(path: &str) -> (r: MangaList)
        ensures
            r.list@ == Seq::<MangaModel>::empty(),
            r.list.wf(),
            r.path@ == path@,
            r.all_basic_info is None,
    {
        MangaList { list: MangaMap::new(), path: path.to_owned(), all_basic_info: None }
    }

    /// Builds the listing unless one is held already. A listing that is
    /// held stays as it is.
    pub fn collect_info(&mut self)
        ensures
            final(self).list == old(self).list,
            final(self).path == old(self).path,
            final(self).cached() == Some(collected(old(self).cached(), old(self).list@)),
            old(self).all_basic_info is Some ==> final(self).all_basic_info == old(
                self,
            ).all_basic_info,
    {
        if self.all_basic_info.is_none() {
            let mut out: Vec<MangaBasicInfo> = Vec::new();
            let mut i: usize = 0;
            let n = self.list.len();
            while i < n
                invariant
                    i <= n,
                    n == self.list@.len(),
                    summary_models(out@) == summaries(self.list@).take(i as int),
                decreases n - i,
            {
                match self.list.entry(i) {
                    Some(m) => {
                        let line = m.summary();
                        let ghost had = summary_models(out@);
                        out.push(line);
                        assert(summary_models(out@) =~= had.push(summary_of(self.list@[i as int])));
                    },
                    None => {},
                }
                i += 1;
            }
            self.all_basic_info = Some(out);
        }
    }

    /// The listing, built first where none is held.
    pub fn all_info(&mut self) -> (r: Vec<MangaBasicInfo>)
        ensures
            final(self).list == old(self).list,
            final(self).path == old(self).path,
            final(self).cached() == Some(summary_models(r@)),
            summary_models(r@) == collected(old(self).cached(), old(self).list@),
    {
        self.collect_info();
        let mut out: Vec<MangaBasicInfo> = Vec::new();
        match &self.all_basic_info {
            Some(held) => {
                let mut i: usize = 0;
                while i < held.len()
                    invariant
                        i <= held.len(),
                        summary_models(out@) == summary_models(held@).take(i as int),
                    decreases held.len() - i,
                {
                    let ghost had = summary_models(out@);
                    out.push(held[i].duplicate());
                    assert(summary_models(out@) =~= had.push(held@[i as int]@));
                    i += 1;
                }
            },
            None => {},
        }
        out
    }

    /// The entries, open to change.
    pub fn get_list_mut(&mut self) -> (r: &mut MangaMap)
        ensures
            *r == old(self).list,
            final(self).list == *final(r),
            final(self).path == old(self).path,
            final(self).all_basic_info == old(self).all_basic_info,
    {
        &mut self.list
    }
}

/// The storage layouts that can be served.
#[derive(Debug, Clone, Copy, PartialEq, Eq, Structural)]
pub enum Backend {
    DMZJ,
    CopyManga,
    Eh,
}

/// What the process is configured with: the port to listen on and the
/// storage layout to serve.
#[derive(Debug, Clone, Copy)]
pub struct Config {
    pub port: u16,
    pub backend: Backend,
}

impl Backend {
    /// The layout that a configuration names.
    pub open spec fn named(name: Seq<char>) -> Option<Backend> {
        if name == "dmzj"@ {
            Some(Backend::DMZJ)
        } else if name == "copy_manga"@ {
            Some(Backend::CopyManga)
        } else if name == "eh"@ {
            Some(Backend::Eh)
        } else {
            None
        }
    }

    /// Reads the name of a layout: `dmzj`, `copy_manga` or `eh`.
    pub fn from_name(name: &str) -> (r: Option<Backend>)
        ensures
            r == Backend::named(name@),
    {
        if str_eq(name, "dmzj") {
            Some(Backend::DMZJ)
        } else if str_eq(name, "copy_manga") {
            Some(Backend::CopyManga)
        } else if str_eq(name, "eh") {
            Some(Backend::Eh)
        } else {
            None
        }
    }
}

impl Config {
    /// The configuration with port `port` and the layout named `backend`;
    /// none where the name is not that of a layout.
    pub fn new(port: u16, backend: &str) -> (r: Option<Config>)
        ensures
            r == match Backend::named(backend@) {
                Some(b) => Some(Config { port, backend: b }),
                None => None,
            },
    {
        match Backend::from_name(backend) {
            Some(b) => Some(Config { port, backend: b }),
            None => None,
        }
    }
}

} // verus!
