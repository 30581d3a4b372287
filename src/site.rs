//! The records that the fetch layer builds, and the cache keys, URLs and
//! limiters it uses for each upstream.
use vstd::prelude::*;
use vstd::string::StrSliceExecFns;
use vstd::string::StringSliceAdditionalSpecFns;
use vstd::string::StringExecFns;
use crate::digest::digest;
use crate::digest::digest_spec;
use crate::text::dec;
use crate::text::dec_padded;
use crate::text::join;
use crate::text::lemma_dec_padded_value;
use crate::text::lemma_dec_value;
use crate::text::push_dec;
use crate::text::push_dec_padded;
use crate::text::string_of;
use crate::text::chars_of;

verus! {

/// Permits per interval of the limiter in front of all web requests.
pub const WEB_PERMITS: u64 = 256;
/// Permits per interval of the limiter in front of the web archive.
pub const ARCHIVE_PERMITS: u64 = 16384;
/// Permits per interval of the limiter in front of the fiction site.
pub const SITE_PERMITS: u64 = 8192;

/// A fetched document: the address asked for, the address after redirects,
/// the content type if one was sent, and the body decoded as text.
#[derive(Clone, Debug)]
pub struct Page {
    pub url: String,
    pub url_final: String,
    pub content_type: Option<String>,
    pub body: String,
}

/// One chapter as listed in a fiction's table of contents.
#[derive(Clone, Debug)]
pub struct SpineChapter {
    pub id: u64,
    pub timestamp: u64,
    pub title: String,
    pub slug: String,
}

/// A fiction's table of contents, chapters in increasing id order.
#[derive(Clone, Debug)]
pub struct Spine {
    pub id: u64,
    pub title: String,
    pub slug: String,
    pub chapters: Vec<SpineChapter>,
}

/// One chapter with its cleaned HTML.
#[derive(Clone, Debug)]
pub struct FicChapter {
    pub id: u64,
    pub timestamp: u64,
    pub title: String,
    pub slug: String,
    pub html: String,
}

/// A whole fiction.
#[derive(Clone, Debug)]
pub struct Fic {
    pub id: u64,
    pub title: String,
    pub slug: String,
    pub chapters: Vec<FicChapter>,
}

/// The cache key of a web page: the digest of its address's bytes.
pub fn web_key(url: &str) -> (r: String)
    ensures
        r@ == "target/web/"@ + digest_spec(url.spec_bytes()),
{
    let bytes = url.as_bytes_vec();
    let d = digest(bytes.as_slice());
    join("target/web/", d.as_str())
}

/// The cache key of a fiction's table of contents.
pub fn spine_key(id: u64) -> (r: String)
    ensures
        r@ == "data/spines/RYL"@ + dec_padded(id as nat, 7),
{
    let mut v = chars_of("data/spines/RYL");
    push_dec_padded(id, 7, &mut v);
    string_of(&v)
}

/// The cache key of one chapter.
pub fn chapter_key(chapter_id: u64) -> (r: String)
    ensures
        r@ == "target/chapters/RYL"@ + dec(chapter_id as nat),
{
    let mut v = chars_of("target/chapters/RYL");
    push_dec(chapter_id, &mut v);
    string_of(&v)
}

/// Two fictions never share a table-of-contents key.
pub proof fn lemma_spine_key_injective(a: u64, b: u64)
    ensures
        ("data/spines/RYL"@ + dec_padded(a as nat, 7) == "data/spines/RYL"@ + dec_padded(b as nat, 7)) <==> a == b,
{
    let p = "data/spines/RYL"@;
    if p + dec_padded(a as nat, 7) == p + dec_padded(b as nat, 7) {
        assert((p + dec_padded(a as nat, 7)).subrange(p.len() as int, (p + dec_padded(a as nat, 7)).len() as int)
            =~= dec_padded(a as nat, 7));
        assert((p + dec_padded(b as nat, 7)).subrange(p.len() as int, (p + dec_padded(b as nat, 7)).len() as int)
            =~= dec_padded(b as nat, 7));
        lemma_dec_padded_value(a as nat, 7);
        lemma_dec_padded_value(b as nat, 7);
    }
}

/// Two chapters never share a cache key.
pub proof fn lemma_chapter_key_injective(a: u64, b: u64)
    ensures
        ("target/chapters/RYL"@ + dec(a as nat) == "target/chapters/RYL"@ + dec(b as nat)) <==> a == b,
{
    let p = "target/chapters/RYL"@;
    if p + dec(a as nat) == p + dec(b as nat) {
        assert((p + dec(a as nat)).subrange(p.len() as int, (p + dec(a as nat)).len() as int) =~= dec(a as nat));
        assert((p + dec(b as nat)).subrange(p.len() as int, (p + dec(b as nat)).len() as int) =~= dec(b as nat));
        lemma_dec_value(a as nat);
        lemma_dec_value(b as nat);
    }
}

/// The address of a fiction's page.
pub fn fiction_url(id: u64) -> (r: String)
    ensures
        r@ == "https://www.royalroad.com/fiction/"@ + dec(id as nat),
{
    let mut v = chars_of("https://www.royalroad.com/fiction/");
    push_dec(id, &mut v);
    string_of(&v)
}

/// The address of a chapter's page.
pub fn chapter_url(fic_id: u64, fic_slug: &str, chapter_id: u64, chapter_slug: &str) -> (r: String)
    ensures
        r@ == "https://www.royalroad.com/fiction/"@ + dec(fic_id as nat) + seq!['/'] + fic_slug@
            + "/chapter/"@ + dec(chapter_id as nat) + seq!['/'] + chapter_slug@,
{
    let mut v = chars_of("https://www.royalroad.com/fiction/");
    push_dec(fic_id, &mut v);
    v.push('/');
    let mut s = chars_of(fic_slug);
    v.append(&mut s);
    let mut c = chars_of("/chapter/");
    v.append(&mut c);
    push_dec(chapter_id, &mut v);
    v.push('/');
    let mut t = chars_of(chapter_slug);
    v.append(&mut t);
    string_of(&v)
}

/// The archived copy of `url`, at its latest capture.
pub fn archive_url(url: &str) -> (r: String)
    ensures
        r@ == "https://web.archive.org/web/3id_/"@ + url@,
{
    join("https://web.archive.org/web/3id_/", url)
}

/// The archived copy of `url`, at its latest capture before `datetime`.
pub fn archive_url_before(url: &str, datetime: u64) -> (r: String)
    ensures
        r@ == "https://web.archive.org/web/"@ + dec(datetime as nat) + "id_/"@ + url@,
{
    let mut v = chars_of("https://web.archive.org/web/");
    push_dec(datetime, &mut v);
    let mut m = chars_of("id_/");
    v.append(&mut m);
    let mut u = chars_of(url);
    v.append(&mut u);
    string_of(&v)
}

/// What ammonia's cleaner gives for `html` when it strips the tags `rm_tags`,
/// keeps links of the schemes `schemes` only, and denies every relative link
/// (`UrlRelative::Deny`, the one relative-link policy this library uses).
pub uninterp spec fn ammonia_cleaned_no_relative(html: Seq<char>, rm_tags: Seq<Seq<char>>, schemes: Seq<Seq<char>>) -> Seq<char>;

/// Relies on ammonia's `Builder::clean`: the cleaned document depends on the
/// input and the configuration alone.
#[verifier::external_body]
fn ammonia_clean(html: &str, rm_tags: &Vec<String>, schemes: &Vec<String>) -> (r: String)
    ensures
        r@ == ammonia_cleaned_no_relative(html@, rm_tags@.map_values(|t: String| t@), schemes@.map_values(|t: String| t@)),
{
    ammonia::Builder::new()
        .rm_tags(rm_tags.iter().map(|t| t.as_str()))
        .url_schemes(schemes.iter().map(|t| t.as_str()).collect())
        .url_relative(ammonia::UrlRelative::Deny)
        .clean(html)
        .to_string()
}

/// The tags removed from chapter text, keeping their content.
pub open spec fn chapter_rm_tags() -> Seq<Seq<char>> {
    seq!["img"@, "span"@]
}

/// The link schemes kept in chapter text.
pub open spec fn chapter_schemes() -> Seq<Seq<char>> {
    seq!["http"@, "https"@, "mailto"@, "magnet"@]
}

/// Cleans a chapter's HTML: images and spans go, links keep only absolute
/// addresses of the web, mail and magnet schemes.
pub fn clean_chapter_html(html: &str) -> (r: String)
    ensures
        r@ == ammonia_cleaned_no_relative(html@, chapter_rm_tags(), chapter_schemes()),
{
    let mut tags: Vec<String> = Vec::new();
    tags.push(String::from_str("img"));
    tags.push(String::from_str("span"));
    let mut schemes: Vec<String> = Vec::new();
    schemes.push(String::from_str("http"));
    schemes.push(String::from_str("https"));
    schemes.push(String::from_str("mailto"));
    schemes.push(String::from_str("magnet"));
    assert(tags@.map_values(|t: String| t@) =~= chapter_rm_tags());
    assert(schemes@.map_values(|t: String| t@) =~= chapter_schemes());
    ammonia_clean(html, &tags, &schemes)
}

/// The chapter record for a listed chapter and its cleaned HTML.
pub fn fic_chapter_of(chapter: &SpineChapter, html: String) -> (r: FicChapter)
    ensures
        r.id == chapter.id,
        r.timestamp == chapter.timestamp,
        r.title@ == chapter.title@,
        r.slug@ == chapter.slug@,
        r.html@ == html@,
{
    FicChapter {
        id: chapter.id,
        timestamp: chapter.timestamp,
        title: String::from_str(chapter.title.as_str()),
        slug: String::from_str(chapter.slug.as_str()),
        html,
    }
}

/// The fiction record from its table of contents and its fetched chapters.
pub fn assemble_fic(spine: &Spine, chapters: Vec<FicChapter>) -> (r: Fic)
    ensures
        r.id == spine.id,
        r.title@ == spine.title@,
        r.slug@ == spine.slug@,
        r.chapters@ == chapters@,
{
    Fic {
        id: spine.id,
        title: String::from_str(spine.title.as_str()),
        slug: String::from_str(spine.slug.as_str()),
        chapters,
    }
}

} // verus!
