use ficcache::context::Context;
use ficcache::context::ContextError;
use ficcache::parse::build_spine;
use ficcache::parse::insert_chapter;
use ficcache::parse::ChapterRow;
use ficcache::parse::SpineError;
use ficcache::parse::slug_of_url;
use ficcache::parse::spine_chapter_of;
use ficcache::parse::title_of;
use ficcache::site::archive_url;
use ficcache::site::archive_url_before;
use ficcache::site::assemble_fic;
use ficcache::site::chapter_key;
use ficcache::site::chapter_url;
use ficcache::site::clean_chapter_html;
use ficcache::site::fic_chapter_of;
use ficcache::site::fiction_url;
use ficcache::site::spine_key;
use ficcache::site::web_key;
use ficcache::site::Spine;
use ficcache::site::SpineChapter;

#[test]
fn keys_and_urls() {
    assert_eq!(spine_key(22518), "data/spines/RYL0022518");
    assert_eq!(spine_key(123456789), "data/spines/RYL123456789");
    assert_eq!(chapter_key(5), "target/chapters/RYL5");
    assert_eq!(fiction_url(22518), "https://www.royalroad.com/fiction/22518");
    assert_eq!(
        chapter_url(22518, "mother", 1, "one"),
        "https://www.royalroad.com/fiction/22518/mother/chapter/1/one"
    );
    assert_eq!(archive_url("a.b/c"), "https://web.archive.org/web/3id_/a.b/c");
    assert_eq!(archive_url_before("a.b/c", 2020), "https://web.archive.org/web/2020id_/a.b/c");
    let k = web_key("https://example.com/x");
    assert!(k.starts_with("target/web/x"));
    assert_eq!(k.len(), 28);
}

#[test]
fn slug_and_title() {
    assert_eq!(
        slug_of_url("https://www.royalroad.com/fiction/22518/the-slug").as_deref(),
        Some("the-slug")
    );
    assert_eq!(slug_of_url("https://www.royalroad.com/fiction/22518/s/x").as_deref(), Some("s"));
    assert_eq!(slug_of_url("https://www.royalroad.com/fiction/22518"), None);
    assert_eq!(slug_of_url("https://example.com/"), None);
    assert_eq!(title_of("  A Tale  | Royal Road"), "A Tale");
    assert_eq!(title_of("Plain"), "Plain");
}

#[test]
fn chapter_rows() {
    let c = spine_chapter_of(" One ", "/fiction/1/s/chapter/42/first-step", "1600000000").unwrap();
    assert_eq!(c.id, 42);
    assert_eq!(c.slug, "first-step");
    assert_eq!(c.title, "One");
    assert_eq!(c.timestamp, 1600000000);
    assert!(spine_chapter_of("x", "/fiction/1/s/chapter/abc/s", "1").is_none());
    assert!(spine_chapter_of("x", "/fiction/1/s/chapter/4/s", "-1").is_none());
    assert!(spine_chapter_of("x", "/fiction/1/s/chapter/4", "1").is_none());
    assert!(spine_chapter_of("x", "/chapter/18446744073709551616/s", "1").is_none());
    assert_eq!(spine_chapter_of("x", "/chapter/18446744073709551615/s", "+7").unwrap().timestamp, 7);
}

fn row(id: u64) -> SpineChapter {
    SpineChapter { id, timestamp: id * 10, title: format!("t{id}"), slug: format!("s{id}") }
}

#[test]
fn chapters_kept_in_id_order() {
    let mut cs = Vec::new();
    for id in [5, 1, 3, 5, 2] {
        insert_chapter(&mut cs, row(id));
    }
    let ids: Vec<u64> = cs.iter().map(|c| c.id).collect();
    assert_eq!(ids, vec![1, 2, 3, 5]);
    let mut late = row(3);
    late.timestamp = 1;
    insert_chapter(&mut cs, late);
    let keys: Vec<(u64, u64)> = cs.iter().map(|c| (c.id, c.timestamp)).collect();
    assert_eq!(keys, vec![(1, 10), (2, 20), (3, 1), (3, 30), (5, 50)]);
    let mut renamed = row(5);
    renamed.title = "other".to_string();
    insert_chapter(&mut cs, renamed);
    assert_eq!(cs.len(), 6);
    assert_eq!(cs[4].title, "t5");
    assert_eq!(cs[5].title, "other");
}

#[test]
fn fiction_from_spine() {
    let spine = Spine { id: 9, title: "T".to_string(), slug: "t".to_string(), chapters: vec![row(1)] };
    let ch = fic_chapter_of(&spine.chapters[0], "<p>x</p>".to_string());
    assert_eq!(ch.id, 1);
    assert_eq!(ch.html, "<p>x</p>");
    let fic = assemble_fic(&spine, vec![ch]);
    assert_eq!(fic.id, 9);
    assert_eq!(fic.title, "T");
    assert_eq!(fic.chapters.len(), 1);
}

#[test]
fn chapter_html_is_cleaned() {
    let out = clean_chapter_html("<p>a<span>b</span><img src=\"x.png\"><a href=\"/rel\">c</a><script>d</script></p>");
    assert!(out.contains("ab"));
    assert!(!out.contains("<span"));
    assert!(!out.contains("<img"));
    assert!(!out.contains("script"));
    assert!(!out.contains("/rel"));
}

#[test]
fn context_store_is_unsupported() {
    let mut ctx: Context<(), String> = Context::new(None);
    assert_eq!(ctx.query("q".to_string()), Err(ContextError::Unsupported));
    assert_eq!(ctx.get_blob("b"), Err(ContextError::Unsupported));
    assert_eq!(ctx.insert_blob(vec![1]), Err(ContextError::Unsupported));
    assert_eq!(ctx.get_responses("q".to_string()), Err(ContextError::Unsupported));
    assert_eq!(ctx.insert_response("q".to_string(), vec![]), Err(ContextError::Unsupported));
    ctx.populate("alias".to_string());
    assert_eq!(ctx.get_blob("b"), Err(ContextError::Unsupported));
}

fn crow(text: &str, href: &str, unixtime: &str) -> ChapterRow {
    ChapterRow { text: text.to_string(), href: href.to_string(), unixtime: unixtime.to_string() }
}

#[test]
fn spine_from_rows() {
    let rows = vec![
        crow(" Two ", "/fiction/7/s/chapter/20/two", "200"),
        crow("One", "/fiction/7/s/chapter/10/one", "100"),
        crow("Two again", "/fiction/7/s/chapter/20/two", "200"),
    ];
    let s = build_spine(7, "https://www.royalroad.com/fiction/7/the-story", "The Story | Royal Road", &rows).unwrap();
    assert_eq!(s.id, 7);
    assert_eq!(s.slug, "the-story");
    assert_eq!(s.title, "The Story");
    let ids: Vec<u64> = s.chapters.iter().map(|c| c.id).collect();
    assert_eq!(ids, vec![10, 20, 20]);
    assert_eq!(s.chapters[1].title, "Two");
    assert_eq!(s.chapters[2].title, "Two again");
    let twice = vec![crow("One", "/chapter/10/one", "100"), crow("One", "/chapter/10/one", "100")];
    let s2 = build_spine(7, "https://www.royalroad.com/fiction/7/s", "t", &twice).unwrap();
    assert_eq!(s2.chapters.len(), 1);
}

#[test]
fn spine_errors() {
    let rows = vec![crow("a", "/chapter/1/a", "1"), crow("b", "/chapter/x/b", "2")];
    assert_eq!(build_spine(1, "https://example.com/", "t", &rows).err(), Some(SpineError::NoSlug));
    assert_eq!(
        build_spine(1, "https://www.royalroad.com/fiction/1/s", "t", &rows).err(),
        Some(SpineError::BadRow(1))
    );
    assert_eq!(
        build_spine(1, "https://www.royalroad.com/fiction/1/s", "t", &vec![]).err(),
        Some(SpineError::NoChapters)
    );
}
