//! Releases of the game: the addresses of a release, the choice of release
//! tags, and the choice of a download among the assets of a release.
//! Patterns are matched by the `regex` crate.

use vstd::prelude::*;
use crate::json::{parse, parsed, Json, JsonValue};
use crate::text::{
    concat, lemma_lex_le_total, lemma_lex_le_transitive, lex_le, str_le,
};

verus! {

/// Whether the pattern matches somewhere in the text, as `regex` decides
/// it: `None` for a pattern that `regex` does not accept.
pub uninterp spec fn pattern_match(pattern: Seq<char>, text: Seq<char>) -> Option<bool>;

/// The leftmost match of the pattern in the text, as `regex` finds it:
/// `None` for a pattern that `regex` does not accept, `Some(None)` where
/// nothing matches.
pub uninterp spec fn pattern_find(pattern: Seq<char>, text: Seq<char>) -> Option<Option<Seq<char>>>;

/// `regex::Regex::new`, then `Regex::is_match`. The answer is a function
/// of the pattern and the text; a pattern that does not compile gives `None`.
#[verifier::external_body]
fn regex_is_match(pattern: &str, text: &str) -> (r: Option<bool>)
    ensures
        r == pattern_match(pattern@, text@),
{
    regex::Regex::new(pattern).ok().map(|re| re.is_match(text))
}

/// `regex::Regex::new`, then `Regex::find` and the text of the match. The
/// answer is a function of the pattern and the text; a pattern that does
/// not compile gives `None`.
#[verifier::external_body]
fn regex_find(pattern: &str, text: &str) -> (r: Option<Option<String>>)
    ensures
        r.deep_view() == pattern_find(pattern@, text@),
{
    regex::Regex::new(pattern).ok().map(|re| re.find(text).map(|m| m.as_str().to_owned()))
}

/// What a `ReleaseInfo` stands for.
pub struct ReleaseInfoView {
    pub tag_name: Seq<char>,
    pub browser_url: Seq<char>,
    pub download_url: Seq<char>,
}

/// A release of the game: its tag, its page, and its download. The
/// download is empty where none is known.
#[derive(Debug)]
pub struct ReleaseInfo {
    pub tag_name: String,
    pub browser_url: String,
    pub download_url: String,
}

impl View for ReleaseInfo {
    type V = ReleaseInfoView;

    open spec fn view(&self) -> ReleaseInfoView {
        ReleaseInfoView {
            tag_name: self.tag_name@,
            browser_url: self.browser_url@,
            download_url: self.download_url@,
        }
    }
}

/// A release of the game, under its older name.
#[derive(Debug)]
pub struct Res {
    pub tag_name: String,
    pub browser_url: String,
    pub download_url: String,
}

impl View for Res {
    type V = ReleaseInfoView;

    open spec fn view(&self) -> ReleaseInfoView {
        ReleaseInfoView {
            tag_name: self.tag_name@,
            browser_url: self.browser_url@,
            download_url: self.download_url@,
        }
    }
}

impl Res {
    /// The same release under the newer name.
    pub fn into_release_info(self) -> (r: ReleaseInfo)
        ensures
            r@ == self@,
    {
        ReleaseInfo {
            tag_name: self.tag_name,
            browser_url: self.browser_url,
            download_url: self.download_url,
        }
    }
}

/// The platforms that releases are offered for.
#[derive(Clone, Copy, Debug, PartialEq, Eq, Structural)]
pub enum Platform {
    Windows,
    MacOs,
}

/// The address at which the release `tag_name` is described.
pub open spec fn release_api_endpoint_of(tag_name: Seq<char>) -> Seq<char> {
    "https://api.github.com/repos/CleverRaven/Cataclysm-DDA/releases/tags/"@ + tag_name
}

/// The address at which the release `tag_name` is described.
pub fn get_release_api_endpoint(tag_name: &str) -> (r: String)
    ensures
        r@ == release_api_endpoint_of(tag_name@),
{
    concat("https://api.github.com/repos/CleverRaven/Cataclysm-DDA/releases/tags/", tag_name)
}

/// The page of the release `tag_name`.
pub open spec fn release_browser_url_of(tag_name: Seq<char>) -> Seq<char> {
    "https://github.com/CleverRaven/Cataclysm-DDA/releases/tag/"@ + tag_name
}

/// The page of the release `tag_name`.
pub fn infer_release_browser_url(tag_name: &str) -> (r: String)
    ensures
        r@ == release_browser_url_of(tag_name@),
{
    concat("https://github.com/CleverRaven/Cataclysm-DDA/releases/tag/", tag_name)
}

/// The address of the repository of the game.
pub fn repository_url() -> (r: String)
    ensures
        r@ == "https://github.com/CleverRaven/Cataclysm-DDA.git"@,
{
    "https://github.com/CleverRaven/Cataclysm-DDA.git".to_owned()
}

/// The pattern that the names of a platform's downloads match.
pub open spec fn release_filter_of(platform: Platform) -> Seq<char> {
    match platform {
        Platform::Windows => "windows-tiles-sounds-x64|Windows_x64"@,
        Platform::MacOs => "osx-tiles|OSX-Tiles"@,
    }
}

/// The pattern that the names of a platform's downloads match.
pub fn platform_release_filter(platform: Platform) -> (r: String)
    ensures
        r@ == release_filter_of(platform),
{
    match platform {
        Platform::Windows => "windows-tiles-sounds-x64|Windows_x64".to_owned(),
        Platform::MacOs => "osx-tiles|OSX-Tiles".to_owned(),
    }
}

/// The download of the experimental release `tag_name` whose date is `date`.
pub open spec fn experimental_url_of(platform: Platform, tag_name: Seq<char>, date: Seq<char>) -> Seq<
    char,
> {
    let base = "https://github.com/CleverRaven/Cataclysm-DDA/releases/download/"@ + tag_name;
    match platform {
        Platform::Windows => base + "/cdda-windows-tiles-sounds-x64-msvc-"@ + date + ".zip"@,
        Platform::MacOs => base + "/cdda-osx-tiles-universal-"@ + date + ".dmg"@,
    }
}

/// The download of the experimental release `tag_name` whose date is `date`.
pub fn experimental_download_url(platform: Platform, tag_name: &str, date: &str) -> (r: String)
    ensures
        r@ == experimental_url_of(platform, tag_name@, date@),
{
    let base = concat("https://github.com/CleverRaven/Cataclysm-DDA/releases/download/", tag_name);
    match platform {
        Platform::Windows => {
            let a = concat(base.as_str(), "/cdda-windows-tiles-sounds-x64-msvc-");
            let b = concat(a.as_str(), date);
            concat(b.as_str(), ".zip")
        },
        Platform::MacOs => {
            let a = concat(base.as_str(), "/cdda-osx-tiles-universal-");
            let b = concat(a.as_str(), date);
            concat(b.as_str(), ".dmg")
        },
    }
}

/// The download of the experimental release `tag_name`: that of the date
/// that the tag holds, or `None` where it holds none.
pub fn infer_experimental_download_url(platform: Platform, tag_name: &str) -> (r: Option<String>)
    ensures
        r.deep_view() == match pattern_find("(\\d{4}-\\d{2}-\\d{2}-\\d{4})"@, tag_name@) {
            Some(Some(date)) => Some(experimental_url_of(platform, tag_name@, date)),
            _ => None,
        },
{
    match regex_find("(\\d{4}-\\d{2}-\\d{2}-\\d{4})", tag_name) {
        Some(Some(date)) => Some(experimental_download_url(platform, tag_name, date.as_str())),
        _ => None,
    }
}

/// Whether `tags` is in descending order.
pub open spec fn descending(tags: Seq<Seq<char>>) -> bool {
    forall|i: int, j: int| 0 <= i < j < tags.len() ==> lex_le(tags[j], tags[i])
}

/// The tags whose flag in `keep` is set, in order. A tag without a flag is
/// not kept.
pub open spec fn kept_tags(tags: Seq<Seq<char>>, keep: Seq<bool>) -> Seq<Seq<char>>
    decreases tags.len(),
{
    if tags.len() == 0 {
        Seq::empty()
    } else {
        let rest = kept_tags(tags.drop_last(), keep);
        if tags.len() <= keep.len() && keep[tags.len() - 1] {
            rest.push(tags.last())
        } else {
            rest
        }
    }
}

/// Whether `picked` is the first `num` of `wanted` in descending order.
pub open spec fn is_top(picked: Seq<Seq<char>>, wanted: Seq<Seq<char>>, num: int) -> bool {
    exists|full: Seq<Seq<char>>|
        #![trigger descending(full)]
        descending(full) && full.to_multiset() == wanted.to_multiset() && picked == full.take(
            if num < full.len() {
                num
            } else {
                full.len() as int
            },
        )
}

fn insert_descending(out: &mut Vec<String>, tag: String)
    requires
        descending(old(out).deep_view()),
    ensures
        descending(final(out).deep_view()),
        final(out).deep_view().to_multiset() == old(out).deep_view().to_multiset().insert(tag@),
{
    let n = out.len();
    let mut k: usize = 0;
    let mut searching = true;
    while searching && k < n
        invariant
            k <= n,
            n == out.len(),
            *out == *old(out),
            forall|j: int| 0 <= j < k ==> lex_le(tag@, out.deep_view()[j]),
            !searching ==> k < n && !lex_le(tag@, out.deep_view()[k as int]),
        decreases n - k + if searching { 1int } else { 0int },
    {
        if str_le(tag.as_str(), out[k].as_str()) {
            k += 1;
        } else {
            searching = false;
        }
    }
    let ghost before = out.deep_view();
    let ghost t = tag@;
    out.insert(k, tag);
    proof {
        let now = out.deep_view();
        assert(now =~= before.insert(k as int, t));
        assert forall|i: int, j: int| 0 <= i < j < now.len() implies lex_le(now[j], now[i]) by {
            if j < k {
                assert(now[i] == before[i] && now[j] == before[j]);
            } else if j == k {
                assert(now[i] == before[i]);
            } else if i == k {
                assert(now[j] == before[j - 1]);
                lemma_lex_le_total(t, before[k as int]);
                if j - 1 > k {
                    lemma_lex_le_transitive(before[j - 1], before[k as int], t);
                }
            } else if i < k {
                assert(now[i] == before[i] && now[j] == before[j - 1]);
            } else {
                assert(now[i] == before[i - 1] && now[j] == before[j - 1]);
            }
        }
        vstd::seq_lib::to_multiset_insert(before, k as int, t);
    }
}

/// The first `num` of the tags whose flag in `keep` is set, in descending
/// order.
pub fn pick_tags(tags: &Vec<String>, keep: &Vec<bool>, num: usize) -> (r: Vec<String>)
    ensures
        is_top(r.deep_view(), kept_tags(tags.deep_view(), keep@), num as int),
{
    let mut out: Vec<String> = Vec::new();
    let ghost all = tags.deep_view();
    proof {
        assert(out.deep_view() =~= Seq::<Seq<char>>::empty());
        assert(all.take(0) =~= Seq::<Seq<char>>::empty());
    }
    let mut i: usize = 0;
    while i < tags.len()
        invariant
            i <= tags.len(),
            all == tags.deep_view(),
            descending(out.deep_view()),
            out.deep_view().to_multiset() == kept_tags(all.take(i as int), keep@).to_multiset(),
        decreases tags.len() - i,
    {
        proof {
            let t = all.take(i as int + 1);
            assert(t.drop_last() =~= all.take(i as int));
            assert(t.last() == all[i as int]);
        }
        if i < keep.len() && keep[i] {
            proof {
                vstd::seq_lib::to_multiset_build(kept_tags(all.take(i as int), keep@), all[i as int]);
            }
            insert_descending(&mut out, tags[i].clone());
        }
        i += 1;
    }
    proof {
        assert(all.take(i as int) =~= all);
    }
    let ghost full = out.deep_view();
    if num < out.len() {
        out.truncate(num);
        proof {
            assert(out.deep_view() =~= full.take(num as int));
        }
    } else {
        proof {
            assert(out.deep_view() =~= full.take(full.len() as int));
        }
    }
    proof {
        assert(descending(full));
    }
    out
}

/// For each text, whether the pattern matches it. A pattern that `regex`
/// does not accept matches nothing.
pub open spec fn match_flags(pattern: Seq<char>, texts: Seq<Seq<char>>) -> Seq<bool> {
    Seq::new(texts.len(), |i: int| pattern_match(pattern, texts[i]) == Some(true))
}

/// For each text, whether the pattern matches it.
pub fn flags_for(pattern: &str, texts: &Vec<String>) -> (r: Vec<bool>)
    ensures
        r@ == match_flags(pattern@, texts.deep_view()),
{
    let mut r: Vec<bool> = Vec::new();
    let mut i: usize = 0;
    while i < texts.len()
        invariant
            i <= texts.len(),
            r.len() == i,
            forall|j: int|
                0 <= j < i ==> r@[j] == (pattern_match(pattern@, texts.deep_view()[j]) == Some(
                    true,
                )),
        decreases texts.len() - i,
    {
        let hit = match regex_is_match(pattern, texts[i].as_str()) {
            Some(b) => b,
            None => false,
        };
        r.push(hit);
        i += 1;
    }
    proof {
        assert(r@ =~= match_flags(pattern@, texts.deep_view()));
    }
    r
}

/// The first `num` of the tags that the pattern matches, in descending order.
pub fn release_tags(tags: &Vec<String>, pattern: &str, num: usize) -> (r: Vec<String>)
    ensures
        is_top(
            r.deep_view(),
            kept_tags(tags.deep_view(), match_flags(pattern@, tags.deep_view())),
            num as int,
        ),
{
    let keep = flags_for(pattern, tags);
    pick_tags(tags, &keep, num)
}

/// The newest `num` tags of stable releases among `tags`: those of the
/// form `0.` and a capital letter, with an optional `-` and digit.
pub fn get_stable_release_tag(tags: &Vec<String>, num: usize) -> (r: Vec<String>)
    ensures
        is_top(
            r.deep_view(),
            kept_tags(
                tags.deep_view(),
                match_flags("^0\\.[A-Z]-?[0-9]?$"@, tags.deep_view()),
            ),
            num as int,
        ),
{
    release_tags(tags, "^0\\.[A-Z]-?[0-9]?$", num)
}

/// The newest `num` tags of experimental releases among `tags`: those
/// that hold a date.
pub fn get_latest_release_tag(tags: &Vec<String>, num: usize) -> (r: Vec<String>)
    ensures
        is_top(
            r.deep_view(),
            kept_tags(
                tags.deep_view(),
                match_flags("(\\d{4}-\\d{2}-\\d{2}-\\d{4})"@, tags.deep_view()),
            ),
            num as int,
        ),
{
    release_tags(tags, "(\\d{4}-\\d{2}-\\d{2}-\\d{4})", num)
}

/// The text of the member `key` of `doc`, if `doc` has such a text.
pub open spec fn text_member(doc: JsonValue, key: Seq<char>) -> Option<Seq<char>> {
    match doc.member(key) {
        Some(JsonValue::Text(s)) => Some(s),
        _ => None,
    }
}

/// The names of the assets, the empty name for an asset without one.
pub open spec fn asset_names(assets: Seq<JsonValue>) -> Seq<Seq<char>> {
    Seq::new(
        assets.len(),
        |i: int|
            match text_member(assets[i], "name"@) {
                Some(s) => s,
                None => Seq::empty(),
            },
    )
}

/// The position of the first flag that is set, or the number of flags.
pub open spec fn first_set(flags: Seq<bool>) -> int
    decreases flags.len(),
{
    if flags.len() == 0 {
        0
    } else if flags[0] {
        0
    } else {
        1 + first_set(flags.drop_first())
    }
}

/// The download of the first asset whose flag is set: `None` where no
/// flag is set, or where that asset names no download.
pub open spec fn picked_url(assets: Seq<JsonValue>, flags: Seq<bool>) -> Option<Seq<char>> {
    let k = first_set(flags);
    if 0 <= k < flags.len() && k < assets.len() {
        text_member(assets[k], "browser_download_url"@)
    } else {
        None
    }
}

fn read_text_member(doc: &Json, key: &str) -> (r: Option<String>)
    ensures
        r.deep_view() == text_member(doc@, key@),
{
    match doc.get(key) {
        Some(Json::Text(s)) => Some(s.clone()),
        _ => None,
    }
}

/// The download of the first asset whose flag is set.
pub fn pick_download_url(assets: &Vec<Json>, matching: &Vec<bool>) -> (r: Option<String>)
    ensures
        r.deep_view() == picked_url(assets.deep_view(), matching@),
{
    let mut i: usize = 0;
    proof {
        assert(matching@.skip(0) =~= matching@);
    }
    while i < matching.len()
        invariant
            i <= matching.len(),
            first_set(matching@) == i + first_set(matching@.skip(i as int)),
        decreases matching.len() - i,
    {
        proof {
            let rest = matching@.skip(i as int);
            assert(rest[0] == matching@[i as int]);
            assert(rest.drop_first() =~= matching@.skip(i as int + 1));
        }
        if matching[i] {
            if i < assets.len() {
                return read_text_member(&assets[i], "browser_download_url");
            } else {
                return None;
            }
        }
        i += 1;
    }
    proof {
        assert(matching@.skip(i as int) =~= Seq::<bool>::empty());
    }
    None
}

/// The download that the description `doc` of a release offers for the
/// pattern `filter`: that of the first asset whose name the pattern
/// matches. `None` where `doc` lists no assets.
pub open spec fn download_url_of(doc: JsonValue, filter: Seq<char>) -> Option<Seq<char>> {
    match doc.member("assets"@) {
        Some(JsonValue::Array(assets)) => picked_url(
            assets,
            match_flags(filter, asset_names(assets)),
        ),
        _ => None,
    }
}

/// The download that a release offers for a platform. `status` and `body`
/// are the answer to the request for the release's description: any status
/// but 200, and a body that is no JSON, give `None`.
pub fn get_stable_download_url(platform: Platform, status: u16, body: &str) -> (r: Option<String>)
    ensures
        r.deep_view() == if status != 200 {
            None
        } else {
            match parsed(body@) {
                Some(doc) => download_url_of(doc, release_filter_of(platform)),
                None => None,
            }
        },
{
    if status != 200 {
        return None;
    }
    let doc = match parse(body) {
        Some(doc) => doc,
        None => {
            return None;
        },
    };
    let assets = match doc.get("assets") {
        Some(Json::Array(assets)) => assets,
        _ => {
            return None;
        },
    };
    let mut names: Vec<String> = Vec::new();
    let mut i: usize = 0;
    while i < assets.len()
        invariant
            i <= assets.len(),
            names.len() == i,
            forall|j: int| 0 <= j < i ==> names@[j]@ == asset_names(assets.deep_view())[j],
        decreases assets.len() - i,
    {
        let name = match read_text_member(&assets[i], "name") {
            Some(s) => s,
            None => String::new(),
        };
        names.push(name);
        i += 1;
    }
    proof {
        assert(names.deep_view() =~= asset_names(assets.deep_view()));
        let found = doc@.member("assets"@)->0;
        assert(found == crate::json::value_of(Json::Array(*assets)));
        assert(found->Array_0 =~= assets.deep_view());
    }
    let filter = platform_release_filter(platform);
    let flags = flags_for(filter.as_str(), &names);
    pick_download_url(assets, &flags)
}

/// The release `tag_name` with the download `download_url`, or with an
/// empty download where there is none.
pub fn release_info(tag_name: &str, download_url: Option<String>) -> (r: ReleaseInfo)
    ensures
        r@ == (ReleaseInfoView {
            tag_name: tag_name@,
            browser_url: release_browser_url_of(tag_name@),
            download_url: match download_url {
                Some(url) => url@,
                None => Seq::empty(),
            },
        }),
{
    ReleaseInfo {
        tag_name: tag_name.to_owned(),
        browser_url: infer_release_browser_url(tag_name),
        download_url: match download_url {
            Some(url) => url,
            None => String::new(),
        },
    }
}

} // verus!
