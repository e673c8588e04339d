//! Which answer a request path asks for. Reading files and sending the
//! answer are the caller's; what is decided here is the meaning of the
//! path.

use crate::backend::{BackendTrait, ChapterPlace, ChapterSource, PagePlace, PageSource};
use crate::manga_list::{
    collected, cover, lookup, summary_models, MangaBasicInfo, MangaInfo, MangaList, MangaModel,
    SummaryModel,
};
use crate::text::{
    chars_of, digits_value, lemma_split_append, lemma_split_push_sep, parse_decimal, parse_usize,
    spells, split, split_chars, string_of,
};
use vstd::prelude::*;

verus! {

/// A request that cannot be answered, with the reason.
#[derive(Debug, Clone)]
pub struct StringError {
    e: String,
}

impl View for StringError {
    type V = Seq<char>;

    closed spec fn view(&self) -> Seq<char> {
        self.e@
    }
}

impl StringError {
    pub fn new(s: &str) -> (r: StringError)
        ensures
            r@ == s@,
    {
        StringError { e: s.to_owned() }
    }

    /// The error as it is shown.
    pub fn message(&self) -> (r: String)
        ensures
            r@ == "Error:"@ + self@,
    {
        let mut r = String::from_str("Error:");
        r.append(self.e.as_str());
        r
    }
}

/// Fails with the reason `s`.
pub fn err<T>(s: &str) -> (r: Result<T, StringError>)
    ensures
        r matches Err(e) && e@ == s@,
{
    Err(StringError::new(s))
}

/// What a request path asks for.
pub enum RouteModel {
    File { path: Seq<char> },
    Listing,
    Nothing,
    Manga { manga_id: Seq<char> },
    Chapter { manga_id: Seq<char>, chapter: Seq<char> },
    Page { manga_id: Seq<char>, chapter: Seq<char>, pic_id: usize },
    Missing,
}

/// What a request asks for: a file of the server's own to send, the
/// listing of all items, an empty answer, one catalog entry, the facts of
/// one chapter, one page, or a page that no chapter has: one whose number
/// is no decimal number.
#[derive(Debug, Clone, PartialEq, Eq)]
pub enum Route {
    File { path: String },
    Listing,
    Nothing,
    Manga { manga_id: String },
    Chapter { manga_id: String, chapter: String },
    Page { manga_id: String, chapter: String, pic_id: usize },
    Missing,
}

impl View for Route {
    type V = RouteModel;

    open spec fn view(&self) -> RouteModel {
        match self {
            Route::File { path } => RouteModel::File { path: path@ },
            Route::Listing => RouteModel::Listing,
            Route::Nothing => RouteModel::Nothing,
            Route::Manga { manga_id } => RouteModel::Manga { manga_id: manga_id@ },
            Route::Chapter { manga_id, chapter } => RouteModel::Chapter {
                manga_id: manga_id@,
                chapter: chapter@,
            },
            Route::Page { manga_id, chapter, pic_id } => RouteModel::Page {
                manga_id: manga_id@,
                chapter: chapter@,
                pic_id: *pic_id,
            },
            Route::Missing => RouteModel::Missing,
        }
    }
}

/// What the pieces behind `/manga` ask for: an item, a chapter of it, or a
/// page of the chapter by its decimal number. A page whose number is no
/// decimal number that fits is a page that is not there, and no error.
pub open spec fn manga_route(p: Seq<Seq<char>>) -> Result<RouteModel, Seq<char>> {
    if p.len() < 3 {
        Err("manga id needed"@)
    } else if p.len() < 4 {
        Ok(RouteModel::Manga { manga_id: p[2] })
    } else if p.len() < 5 {
        Ok(RouteModel::Chapter { manga_id: p[2], chapter: p[3] })
    } else {
        match parse_decimal(p[4]) {
            Some(pic_id) => Ok(RouteModel::Page { manga_id: p[2], chapter: p[3], pic_id }),
            None => Ok(RouteModel::Missing),
        }
    }
}

/// What a path, cut at `/` into the pieces `p`, asks for. The piece behind
/// the first `/` decides; a path without `/` asks for nothing that can be
/// answered.
pub open spec fn pieces_route(p: Seq<Seq<char>>) -> Result<RouteModel, Seq<char>> {
    if p.len() < 2 {
        Err("why no 1"@)
    } else if p[1] == "favicon.ico"@ {
        Ok(RouteModel::File { path: "res/favicon.ico"@ })
    } else if p[1].len() == 0 {
        Ok(RouteModel::File { path: "res/html/index.html"@ })
    } else if p[1] == "pic"@ {
        if p.len() > 2 {
            Ok(RouteModel::File { path: "res/pic/"@ + p[2] })
        } else {
            Err("img not found"@)
        }
    } else if p[1] == "css"@ {
        if p.len() > 2 {
            Ok(RouteModel::File { path: "res/css/"@ + p[2] })
        } else {
            Err("img not found"@)
        }
    } else if p[1] == "reader"@ {
        Ok(RouteModel::File { path: "res/html/reader.html"@ })
    } else if p[1] == "manga_page"@ {
        Ok(RouteModel::File { path: "res/html/manga.html"@ })
    } else if p[1] == "info"@ {
        if p.len() > 2 {
            if p[2] == "all_manga"@ {
                Ok(RouteModel::Listing)
            } else {
                Ok(RouteModel::Nothing)
            }
        } else {
            Err("img not found"@)
        }
    } else if p[1] == "manga"@ {
        manga_route(p)
    } else {
        Ok(RouteModel::File { path: "res/html/404.html"@ })
    }
}

/// What the request path `path` asks for.
pub open spec fn route_of(path: Seq<char>) -> Result<RouteModel, Seq<char>> {
    pieces_route(split(path, '/'))
}

fn resource(kind: &str, name: &Vec<char>) -> (r: String)
    ensures
        r@ == kind@ + name@,
{
    let mut r = kind.to_owned();
    let name = string_of(name);
    r.append(name.as_str());
    r
}

/// Reads a request path.
pub fn route(path: &str) -> (r: Result<Route, StringError>)
    ensures
        match r {
            Ok(route) => route_of(path@) == Ok::<RouteModel, Seq<char>>(route@),
            Err(e) => route_of(path@) == Err::<RouteModel, Seq<char>>(e@),
        },
{
    let chars = chars_of(path);
    let p = split_chars(&chars, '/');
    if p.len() < 2 {
        return err("why no 1");
    }
    let first = &p[1];
    if spells(first, "favicon.ico") {
        Ok(Route::File { path: String::from_str("res/favicon.ico") })
    } else if first.len() == 0 {
        Ok(Route::File { path: String::from_str("res/html/index.html") })
    } else if spells(first, "pic") {
        if p.len() > 2 {
            Ok(Route::File { path: resource("res/pic/", &p[2]) })
        } else {
            err("img not found")
        }
    } else if spells(first, "css") {
        if p.len() > 2 {
            Ok(Route::File { path: resource("res/css/", &p[2]) })
        } else {
            err("img not found")
        }
    } else if spells(first, "reader") {
        Ok(Route::File { path: String::from_str("res/html/reader.html") })
    } else if spells(first, "manga_page") {
        Ok(Route::File { path: String::from_str("res/html/manga.html") })
    } else if spells(first, "info") {
        if p.len() > 2 {
            if spells(&p[2], "all_manga") {
                Ok(Route::Listing)
            } else {
                Ok(Route::Nothing)
            }
        } else {
            err("img not found")
        }
    } else if spells(first, "manga") {
        if p.len() < 3 {
            return err("manga id needed");
        }
        let manga_id = string_of(&p[2]);
        if p.len() < 4 {
            return Ok(Route::Manga { manga_id });
        }
        let chapter = string_of(&p[3]);
        if p.len() < 5 {
            return Ok(Route::Chapter { manga_id, chapter });
        }
        match parse_usize(&p[4]) {
            Some(pic_id) => Ok(Route::Page { manga_id, chapter, pic_id }),
            None => Ok(Route::Missing),
        }
    } else {
        Ok(Route::File { path: String::from_str("res/html/404.html") })
    }
}

/// What an answer says.
pub enum AnswerModel {
    File { path: Seq<char> },
    Listing { lines: Seq<SummaryModel> },
    Nothing,
    Entry { info: MangaModel },
    Chapter { facts: ChapterPlace },
    Page { place: PagePlace },
    NotFound,
}

/// What is to be done for a request: send a file of the server's own, the
/// listing, an empty body or a catalog entry; send the facts of a chapter,
/// after counting the entries of its archive where they are not known;
/// read a page where it is and send it; or say that nothing was found.
#[derive(Debug, Clone, PartialEq, Eq)]
pub enum Answer {
    File { path: String },
    Listing { lines: Vec<MangaBasicInfo> },
    Nothing,
    Entry { info: MangaInfo },
    Chapter { facts: ChapterSource },
    Page { place: PageSource },
    NotFound,
}

impl View for Answer {
    type V = AnswerModel;

    open spec fn view(&self) -> AnswerModel {
        match self {
            Answer::File { path } => AnswerModel::File { path: path@ },
            Answer::Listing { lines } => AnswerModel::Listing { lines: summary_models(lines@) },
            Answer::Nothing => AnswerModel::Nothing,
            Answer::Entry { info } => AnswerModel::Entry { info: info@ },
            Answer::Chapter { facts } => AnswerModel::Chapter { facts: facts@ },
            Answer::Page { place } => AnswerModel::Page { place: place@ },
            Answer::NotFound => AnswerModel::NotFound,
        }
    }
}

/// The answer to a request, for a storage layout and a catalog with the
/// entries `entries`, the storage root `path` and the listing `held`. An
/// item, a chapter or a page that is not there is not found; for a page
/// whose number is no number the layout is not asked.
pub open spec fn answer_of<B: BackendTrait>(
    backend: &B,
    entries: Seq<MangaModel>,
    path: Seq<char>,
    held: Option<Seq<SummaryModel>>,
    request: RouteModel,
) -> AnswerModel {
    match request {
        RouteModel::File { path: file } => AnswerModel::File { path: file },
        RouteModel::Listing => AnswerModel::Listing { lines: collected(held, entries) },
        RouteModel::Nothing => AnswerModel::Nothing,
        RouteModel::Manga { manga_id } => match lookup(entries, manga_id) {
            Some(info) => AnswerModel::Entry { info },
            None => AnswerModel::NotFound,
        },
        RouteModel::Chapter { manga_id, chapter } => match backend.chapter(
            entries,
            path,
            manga_id,
            chapter,
        ) {
            Some(facts) => AnswerModel::Chapter { facts },
            None => AnswerModel::NotFound,
        },
        RouteModel::Page { manga_id, chapter, pic_id } => match backend.page(
            entries,
            path,
            manga_id,
            chapter,
            pic_id,
        ) {
            Some(place) => AnswerModel::Page { place },
            None => AnswerModel::NotFound,
        },
        RouteModel::Missing => AnswerModel::NotFound,
    }
}

/// Decides what is to be done for a request. Asking for the listing
/// builds it where the catalog holds none; nothing else changes the
/// catalog.
pub fn answer<B: BackendTrait>(backend: &B, list: &mut MangaList, request: &Route) -> (r: Answer)
    requires
        backend.wf(),
    ensures
        r@ == answer_of(backend, old(list).list@, old(list).path@, old(list).cached(), request@),
        final(list).list == old(list).list,
        final(list).path == old(list).path,
        final(list).cached() == if request@ is Listing {
            Some(collected(old(list).cached(), old(list).list@))
        } else {
            old(list).cached()
        },
{
    match request {
        Route::File { path } => Answer::File { path: path.clone() },
        Route::Listing => {
            let lines = list.all_info();
            Answer::Listing { lines }
        },
        Route::Nothing => Answer::Nothing,
        Route::Manga { manga_id } => match list.list.get(manga_id.as_str()) {
            Some(info) => Answer::Entry { info: info.duplicate() },
            None => Answer::NotFound,
        },
        Route::Chapter { manga_id, chapter } => {
            match backend.get_chapter_info(
                list,
                list.path.as_str(),
                manga_id.as_str(),
                chapter.as_str(),
            ) {
                Some(facts) => Answer::Chapter { facts },
                None => Answer::NotFound,
            }
        },
        Route::Page { manga_id, chapter, pic_id } => {
            match backend.get_pic_in_chapter(
                list,
                list.path.as_str(),
                manga_id.as_str(),
                chapter.as_str(),
                *pic_id,
            ) {
                Some(place) => Answer::Page { place },
                None => Answer::NotFound,
            }
        },
        Route::Missing => Answer::NotFound,
    }
}

/// The reference to a cover, read as a request path, asks for page 0 of
/// the chapter that it names, provided neither identifier holds a slash.
pub proof fn lemma_cover_route(id: Seq<char>, chapter: Seq<char>)
    requires
        !id.contains('/'),
        !chapter.contains('/'),
    ensures
        route_of(cover(id, chapter)) == Ok::<RouteModel, Seq<char>>(
            RouteModel::Page { manga_id: id, chapter, pic_id: 0 },
        ),
{
    reveal_strlit("/manga/");
    reveal_strlit("/");
    reveal_strlit("/0");
    reveal_strlit("manga");
    reveal_strlit("favicon.ico");
    reveal_strlit("pic");
    reveal_strlit("css");
    reveal_strlit("reader");
    reveal_strlit("manga_page");
    reveal_strlit("info");
    let none = Seq::<char>::empty();
    let word = seq!['m', 'a', 'n', 'g', 'a'];
    let zero = seq!['0'];
    assert(word =~= "manga"@);
    // The reference, put together piece by piece: each slash opens a new
    // piece, and what follows it fills that piece.
    let s1 = none.push('/');
    lemma_split_push_sep(none, '/');
    let s2 = s1 + word;
    lemma_split_append(s1, word, '/');
    let s3 = s2.push('/');
    lemma_split_push_sep(s2, '/');
    let s4 = s3 + id;
    lemma_split_append(s3, id, '/');
    let s5 = s4.push('/');
    lemma_split_push_sep(s4, '/');
    let s6 = s5 + chapter;
    lemma_split_append(s5, chapter, '/');
    let s7 = s6.push('/');
    lemma_split_push_sep(s6, '/');
    let s8 = s7 + zero;
    lemma_split_append(s7, zero, '/');
    assert(cover(id, chapter) =~= s8);
    // The last piece reads as the number 0.
    assert(zero.drop_last() =~= none);
    assert(digits_value(none) == 0);
}

/// The cover of a catalog entry asks for page 0 of the first chapter of
/// the entry, provided the cover is the reference to that page and neither
/// identifier holds a slash.
pub proof fn lemma_entry_cover(m: MangaModel)
    requires
        m.chapters.len() >= 1,
        m.pic == cover(m.id, m.chapters[0].id),
        !m.id.contains('/'),
        !m.chapters[0].id.contains('/'),
    ensures
        route_of(m.pic) == Ok::<RouteModel, Seq<char>>(
            RouteModel::Page { manga_id: m.id, chapter: m.chapters[0].id, pic_id: 0 },
        ),
{
    lemma_cover_route(m.id, m.chapters[0].id);
}

} // verus!
