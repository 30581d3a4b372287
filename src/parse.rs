//! Reading the fields of a fiction's records out of the text that the
//! document queries return: addresses, titles, links and timestamps.
use vstd::prelude::*;
use vstd::string::StringExecFns;
use crate::site::Spine;
use crate::site::SpineChapter;
use crate::text::all_digits;
use crate::text::chars_of;
use crate::text::digit_value;
use crate::text::digits_value;
use crate::text::first_at_from;
use crate::text::absent_from;
use crate::text::occurs_at;
use crate::text::parse_u64;
use crate::text::string_of;
use crate::text::same_text;
use crate::text::unsigned_body;

verus! {

/// The first match of `pat` in `s` at or after `from`.
pub open spec fn first_occ(s: Seq<char>, pat: Seq<char>, from: int) -> Option<int> {
    if exists|i: int| first_at_from(s, pat, from, i) {
        Some(choose|i: int| first_at_from(s, pat, from, i))
    } else {
        None
    }
}

/// The piece of `s` between the first match of `pat` and the next one (or the
/// end): what splitting `s` on `pat` gives second, if there is a match.
pub open spec fn piece_after_first(s: Seq<char>, pat: Seq<char>) -> Option<Seq<char>> {
    match first_occ(s, pat, 0) {
        None => None,
        Some(a) => {
            let st = a + pat.len();
            match first_occ(s, pat, st) {
                None => Some(s.subrange(st, s.len() as int)),
                Some(e) => Some(s.subrange(st, e)),
            }
        },
    }
}

/// The piece of `s` before the first match of `pat`, or all of `s`.
pub open spec fn first_piece(s: Seq<char>, pat: Seq<char>) -> Seq<char> {
    match first_occ(s, pat, 0) {
        None => s,
        Some(a) => s.subrange(0, a),
    }
}

/// The last piece of splitting `s[from..]` on `pat`, matches taken from the left.
pub open spec fn last_piece(s: Seq<char>, pat: Seq<char>, from: int) -> Seq<char>
    decreases s.len() - from,
{
    if pat.len() == 0 || from < 0 || from > s.len() {
        s.subrange(from, s.len() as int)
    } else {
        match first_occ(s, pat, from) {
            None => s.subrange(from, s.len() as int),
            Some(a) => if a + pat.len() > from { last_piece(s, pat, a + pat.len()) } else { Seq::empty() },
        }
    }
}

proof fn lemma_first_unique(s: Seq<char>, pat: Seq<char>, from: int, i: int)
    requires
        first_at_from(s, pat, from, i),
    ensures
        first_occ(s, pat, from) == Some(i),
{
    let j = choose|j: int| first_at_from(s, pat, from, j);
    if j < i {
        assert(!occurs_at(s, pat, j));
    } else if i < j {
        assert(!occurs_at(s, pat, i));
    }
}

fn matches_at(s: &Vec<char>, pat: &Vec<char>, i: usize) -> (r: bool)
    ensures
        r == occurs_at(s@, pat@, i as int),
{
    if i > s.len() || pat.len() > s.len() - i {
        return false;
    }
    let n = s.len();
    let mut k: usize = 0;
    while k < pat.len()
        invariant
            n == s@.len(),
            k <= pat@.len(),
            i + pat@.len() <= s@.len(),
            forall|m: int| 0 <= m < k ==> s@[i + m] == pat@[m],
        decreases pat@.len() - k,
    {
        if s[i + k] != pat[k] {
            assert(s@.subrange(i as int, i + pat@.len())[k as int] != pat@[k as int]);
            return false;
        }
        k = k + 1;
    }
    assert(s@.subrange(i as int, i + pat@.len()) =~= pat@);
    true
}

fn find_from(s: &Vec<char>, pat: &Vec<char>, from: usize) -> (r: Option<usize>)
    requires
        from <= s@.len(),
    ensures
        r matches Some(i) ==> first_at_from(s@, pat@, from as int, i as int) && first_occ(s@, pat@, from as int) == Some(i as int),
        r is None ==> absent_from(s@, pat@, from as int) && first_occ(s@, pat@, from as int) is None,
{
    let n = s.len();
    let mut i: usize = from;
    while i < n
        invariant
            from <= i <= n,
            n == s@.len(),
            forall|j: int| from <= j < i ==> !occurs_at(s@, pat@, j),
        decreases n - i,
    {
        if matches_at(s, pat, i) {
            proof { lemma_first_unique(s@, pat@, from as int, i as int); }
            return Some(i);
        }
        i = i + 1;
    }
    if matches_at(s, pat, n) {
        proof { lemma_first_unique(s@, pat@, from as int, n as int); }
        return Some(n);
    }
    assert(!occurs_at(s@, pat@, n as int));
    assert forall|j: int| from <= j implies !occurs_at(s@, pat@, j) by {
        if j > n {
            assert(j + pat@.len() > s@.len());
        }
    }
    None
}

fn slice(s: &Vec<char>, a: usize, b: usize) -> (r: Vec<char>)
    requires
        a <= b <= s@.len(),
    ensures
        r@ == s@.subrange(a as int, b as int),
{
    let mut r: Vec<char> = Vec::new();
    let mut k: usize = a;
    while k < b
        invariant
            a <= k <= b,
            b <= s@.len(),
            r@ == s@.subrange(a as int, k as int),
        decreases b - k,
    {
        r.push(s[k]);
        k = k + 1;
        assert(r@ =~= s@.subrange(a as int, k as int));
    }
    r
}

/// The second piece of splitting `s` on `pat`.
pub fn after_first(s: &Vec<char>, pat: &Vec<char>) -> (r: Option<Vec<char>>)
    ensures
        r matches Some(v) ==> piece_after_first(s@, pat@) == Some(v@),
        r is None ==> piece_after_first(s@, pat@) is None,
{
    let n = s.len();
    match find_from(s, pat, 0) {
        None => None,
        Some(a) => {
            assert(occurs_at(s@, pat@, a as int));
            assert(a + pat@.len() <= n);
            let st = a + pat.len();
            match find_from(s, pat, st) {
                None => Some(slice(s, st, s.len())),
                Some(e) => Some(slice(s, st, e)),
            }
        },
    }
}

/// The first piece of splitting `s` on `pat`.
pub fn before_first(s: &Vec<char>, pat: &Vec<char>) -> (r: Vec<char>)
    ensures
        r@ == first_piece(s@, pat@),
{
    match find_from(s, pat, 0) {
        None => slice(s, 0, s.len()),
        Some(a) => slice(s, 0, a),
    }
}

/// The last piece of splitting `s` on the non-empty `pat`.
pub fn after_last(s: &Vec<char>, pat: &Vec<char>) -> (r: Vec<char>)
    requires
        pat@.len() > 0,
    ensures
        r@ == last_piece(s@, pat@, 0),
{
    let n = s.len();
    let mut from: usize = 0;
    loop
        invariant
            pat@.len() > 0,
            n == s@.len(),
            from <= s@.len(),
            last_piece(s@, pat@, 0) == last_piece(s@, pat@, from as int),
        decreases s@.len() + 1 - from,
    {
        match find_from(s, pat, from) {
            None => {
                return slice(s, from, s.len());
            },
            Some(a) => {
                assert(occurs_at(s@, pat@, a as int));
                from = a + pat.len();
            },
        }
    }
}

/// Reads an unsigned 64-bit integer: an optional `+`, then decimal digits.
pub fn parse_u64_text(s: &Vec<char>) -> (r: Option<u64>)
    ensures
        r == parse_u64(s@),
{
    let start: usize = if s.len() > 0 && s[0] == '+' { 1 } else { 0 };
    let ghost body = unsigned_body(s@);
    assert(body =~= s@.subrange(start as int, s@.len() as int));
    if start >= s.len() {
        return None;
    }
    let mut v: u64 = 0;
    let mut k: usize = start;
    while k < s.len()
        invariant
            start <= k <= s@.len(),
            body == s@.subrange(start as int, s@.len() as int),
            body == unsigned_body(s@),
            all_digits(s@.subrange(start as int, k as int)),
            v as nat == digits_value(s@.subrange(start as int, k as int)),
        decreases s@.len() - k,
    {
        let c = s[k];
        let d: u64 = if c == '0' { 0 } else if c == '1' { 1 } else if c == '2' { 2 }
            else if c == '3' { 3 } else if c == '4' { 4 } else if c == '5' { 5 }
            else if c == '6' { 6 } else if c == '7' { 7 } else if c == '8' { 8 }
            else if c == '9' { 9 } else {
                proof {
                    assert(body[(k - start) as int] == c);
                    lemma_not_all_digits(body, (k - start) as int);
                    assert(parse_u64(s@) is None);
                }
                return None;
            };
        assert(digit_value(c) == Some(d as nat));
        let ghost next = s@.subrange(start as int, k + 1);
        assert(next.drop_last() =~= s@.subrange(start as int, k as int));
        assert(next.last() == c);
        assert(digits_value(next) == v * 10 + d);
        if v > (u64::MAX - d) / 10 {
            proof {
                assert(v * 10 + d > u64::MAX) by (nonlinear_arith)
                    requires v > (u64::MAX - d) / 10, d < 10;
                assert(body.subrange(0, (k + 1 - start) as int) =~= next);
                lemma_too_big(body, (k + 1 - start) as int, v as nat, d as nat);
                assert(parse_u64(s@) is None);
            }
            return None;
        }
        assert(v * 10 + d <= u64::MAX) by (nonlinear_arith)
            requires v <= (u64::MAX - d) / 10, d < 10;
        v = v * 10 + d;
        k = k + 1;
        assert(all_digits(next)) by {
            assert forall|i: int| 0 <= i < next.len() implies (#[trigger] digit_value(next[i])) is Some by {
                if i < next.len() - 1 {
                    assert(next[i] == s@.subrange(start as int, k - 1)[i]);
                }
            }
        }
    }
    assert(s@.subrange(start as int, s@.len() as int) =~= body);
    Some(v)
}

proof fn lemma_not_all_digits(body: Seq<char>, i: int)
    requires
        0 <= i < body.len(),
        digit_value(body[i]) is None,
    ensures
        !all_digits(body),
{
}

proof fn lemma_digits_prefix_le(s: Seq<char>, n: int)
    requires
        0 <= n <= s.len(),
        all_digits(s),
    ensures
        digits_value(s.subrange(0, n)) <= digits_value(s),
    decreases s.len() - n,
{
    if n < s.len() {
        lemma_digits_prefix_le(s, n + 1);
        let p = s.subrange(0, n + 1);
        assert(p.drop_last() =~= s.subrange(0, n));
    } else {
        assert(s.subrange(0, n) =~= s);
    }
}

proof fn lemma_too_big(body: Seq<char>, n: int, v: nat, d: nat)
    requires
        0 < n <= body.len(),
        d < 10,
        v * 10 + d > u64::MAX,
        digits_value(body.subrange(0, n)) == v * 10 + d,
    ensures
        !all_digits(body) || digits_value(body) > u64::MAX,
{
    if all_digits(body) {
        lemma_digits_prefix_le(body, n);
    }
}

/// The trimmed text, as `str::trim` gives it.
pub uninterp spec fn trimmed(s: Seq<char>) -> Seq<char>;

/// Relies on `str::trim`: the text without leading and trailing whitespace,
/// a function of the text alone.
#[verifier::external_body]
fn trim_text(s: &str) -> (r: String)
    ensures
        r@ == trimmed(s@),
{
    s.trim().to_string()
}

/// The slug of a fiction: the second `/`-piece of what follows `/fiction/`
/// in its final address.
pub open spec fn slug_spec(url_final: Seq<char>) -> Option<Seq<char>> {
    match piece_after_first(url_final, "/fiction/"@) {
        None => None,
        Some(p) => piece_after_first(p, seq!['/']),
    }
}

/// The slug of a fiction from its final address, if the address has one.
pub fn slug_of_url(url_final: &str) -> (r: Option<String>)
    ensures
        r matches Some(x) ==> slug_spec(url_final@) == Some(x@),
        r is None ==> slug_spec(url_final@) is None,
{
    let s = chars_of(url_final);
    let pat = chars_of("/fiction/");
    match after_first(&s, &pat) {
        None => None,
        Some(p) => {
            let slash = vec!['/'];
            assert(slash@ =~= seq!['/']);
            match after_first(&p, &slash) {
                None => None,
                Some(x) => Some(string_of(&x)),
            }
        },
    }
}

/// A fiction's title from its page title: the text before the first `|`, trimmed.
pub fn title_of(page_title: &str) -> (r: String)
    ensures
        r@ == trimmed(first_piece(page_title@, seq!['|'])),
{
    let s = chars_of(page_title);
    let bar = vec!['|'];
    assert(bar@ =~= seq!['|']);
    let head = string_of(&before_first(&s, &bar));
    trim_text(head.as_str())
}

/// A chapter's id and slug from its link: after the last `/chapter/`, the
/// first `/`-piece is the id and the second the slug.
pub open spec fn chapter_link_spec(href: Seq<char>) -> Option<(u64, Seq<char>)> {
    let tail = last_piece(href, "/chapter/"@, 0);
    match (parse_u64(first_piece(tail, seq!['/'])), piece_after_first(tail, seq!['/'])) {
        (Some(id), Some(slug)) => Some((id, slug)),
        _ => None,
    }
}

/// The row of a table of contents, if its link and timestamp read correctly.
pub fn spine_chapter_of(link_text: &str, href: &str, unixtime: &str) -> (r: Option<SpineChapter>)
    ensures
        r matches Some(c) ==> {
            &&& chapter_link_spec(href@) == Some((c.id, c.slug@))
            &&& parse_u64(unixtime@) == Some(c.timestamp)
            &&& c.title@ == trimmed(link_text@)
        },
        r is None ==> chapter_link_spec(href@) is None || parse_u64(unixtime@) is None,
{
    let h = chars_of(href);
    let pat = chars_of("/chapter/");
    assert(pat@.len() > 0) by {
        reveal_strlit("/chapter/");
    }
    let tail = after_last(&h, &pat);
    let slash = vec!['/'];
    assert(slash@ =~= seq!['/']);
    let id_text = before_first(&tail, &slash);
    let id = parse_u64_text(&id_text);
    let slug = after_first(&tail, &slash);
    let ts = parse_u64_text(&chars_of(unixtime));
    match (id, slug, ts) {
        (Some(id), Some(slug), Some(timestamp)) => {
            let title = trim_text(link_text);
            Some(SpineChapter { id, timestamp, title, slug: string_of(&slug) })
        },
        _ => None,
    }
}

/// `a` comes no later than `b`: by id, then by timestamp.
pub open spec fn key_le(a: SpineChapter, b: SpineChapter) -> bool {
    a.id < b.id || (a.id == b.id && a.timestamp <= b.timestamp)
}

/// `a` and `b` hold the same id, timestamp, title and slug.
pub open spec fn same_chapter(a: SpineChapter, b: SpineChapter) -> bool {
    &&& a.id == b.id
    &&& a.timestamp == b.timestamp
    &&& a.title@ == b.title@
    &&& a.slug@ == b.slug@
}

/// The chapters of `cs` come by id, then by timestamp.
pub open spec fn in_order(cs: Seq<SpineChapter>) -> bool {
    forall|i: int, j: int| 0 <= i < j < cs.len() ==> key_le(cs[i], cs[j])
}

/// No two chapters of `cs` are the same.
pub open spec fn distinct_chapters(cs: Seq<SpineChapter>) -> bool {
    forall|i: int, j: int| 0 <= i < j < cs.len() ==> !same_chapter(cs[i], cs[j])
}

/// A chapter of `cs` is the same as `c`.
pub open spec fn listed(cs: Seq<SpineChapter>, c: SpineChapter) -> bool {
    exists|i: int| 0 <= i < cs.len() && same_chapter(#[trigger] cs[i], c)
}

fn same_chapter_exec(a: &SpineChapter, b: &SpineChapter) -> (r: bool)
    ensures
        r == same_chapter(*a, *b),
{
    a.id == b.id && a.timestamp == b.timestamp && same_text(a.title.as_str(), b.title.as_str())
        && same_text(a.slug.as_str(), b.slug.as_str())
}

/// Adds `c` to chapters kept by id, then timestamp; among chapters with the
/// same id and timestamp, those added earlier come first. A chapter the same
/// as one already listed (all four fields equal) is not added again.
pub fn insert_chapter(chapters: &mut Vec<SpineChapter>, c: SpineChapter)
    requires
        in_order(old(chapters)@),
        distinct_chapters(old(chapters)@),
    ensures
        in_order(final(chapters)@),
        distinct_chapters(final(chapters)@),
        listed(old(chapters)@, c) ==> final(chapters)@ == old(chapters)@,
        !listed(old(chapters)@, c) ==> exists|p: int| {
            &&& 0 <= p <= old(chapters)@.len()
            &&& final(chapters)@ == old(chapters)@.insert(p, c)
            &&& forall|i: int| 0 <= i < p ==> key_le(#[trigger] old(chapters)@[i], c)
            &&& forall|i: int| p <= i < old(chapters)@.len() ==> !key_le(#[trigger] old(chapters)@[i], c)
        },
{
    let n = chapters.len();
    let mut k: usize = 0;
    while k < n
        invariant
            k <= n,
            n == chapters@.len(),
            chapters@ == old(chapters)@,
            in_order(chapters@),
            distinct_chapters(chapters@),
            forall|i: int| 0 <= i < k ==> !same_chapter(#[trigger] chapters@[i], c),
        decreases n - k,
    {
        if same_chapter_exec(&chapters[k], &c) {
            assert(listed(old(chapters)@, c));
            return;
        }
        k = k + 1;
    }
    assert(!listed(chapters@, c));
    let mut p: usize = 0;
    while p < n && (chapters[p].id < c.id || (chapters[p].id == c.id && chapters[p].timestamp <= c.timestamp))
        invariant
            p <= n,
            n == chapters@.len(),
            chapters@ == old(chapters)@,
            in_order(chapters@),
            distinct_chapters(chapters@),
            !listed(chapters@, c),
            forall|i: int| 0 <= i < p ==> key_le(#[trigger] chapters@[i], c),
        decreases n - p,
    {
        p = p + 1;
    }
    let ghost old_cs = chapters@;
    assert forall|i: int| p <= i < n implies !key_le(#[trigger] old_cs[i], c) by {
        assert(!key_le(old_cs[p as int], c));
        if i > p {
            assert(key_le(old_cs[p as int], old_cs[i]));
        }
    }
    chapters.insert(p, c);
    assert(chapters@ == old_cs.insert(p as int, c));
    assert forall|i: int, j: int| 0 <= i < j < chapters@.len() implies key_le(chapters@[i], chapters@[j]) by {
        if j < p {
            assert(chapters@[i] == old_cs[i] && chapters@[j] == old_cs[j]);
        } else if j == p {
            assert(chapters@[i] == old_cs[i]);
        } else if i < p {
            assert(chapters@[i] == old_cs[i] && chapters@[j] == old_cs[j - 1]);
        } else if i == p {
            assert(chapters@[j] == old_cs[j - 1]);
            assert(!key_le(old_cs[j - 1], c));
        } else {
            assert(chapters@[i] == old_cs[i - 1] && chapters@[j] == old_cs[j - 1]);
        }
    }
    assert forall|i: int, j: int| 0 <= i < j < chapters@.len() implies !same_chapter(chapters@[i], chapters@[j]) by {
        if j < p {
            assert(chapters@[i] == old_cs[i] && chapters@[j] == old_cs[j]);
        } else if j == p {
            assert(chapters@[i] == old_cs[i]);
        } else if i < p {
            assert(chapters@[i] == old_cs[i] && chapters@[j] == old_cs[j - 1]);
        } else if i == p {
            assert(chapters@[j] == old_cs[j - 1]);
        } else {
            assert(chapters@[i] == old_cs[i - 1] && chapters@[j] == old_cs[j - 1]);
        }
    }
    assert(!listed(old_cs, c));
}

/// What the document query found in one row of a table of contents.
#[derive(Clone, Debug)]
pub struct ChapterRow {
    pub text: String,
    pub href: String,
    pub unixtime: String,
}

/// Why a table of contents could not be read.
#[derive(Clone, Copy, Debug, PartialEq, Eq)]
pub enum SpineError {
    /// The final address has no slug after `/fiction/<id>/`.
    NoSlug,
    /// The row at this index has no readable chapter id, slug or timestamp.
    BadRow(usize),
    /// The table of contents lists no chapter.
    NoChapters,
}

/// The chapter id that a readable row links to.
pub open spec fn row_id(r: ChapterRow) -> u64 {
    chapter_link_spec(r.href@).unwrap().0
}

pub open spec fn row_ok(r: ChapterRow) -> bool {
    chapter_link_spec(r.href@) is Some && parse_u64(r.unixtime@) is Some
}

/// `c` is the chapter that row `r` reads as.
pub open spec fn reads_as(r: ChapterRow, c: SpineChapter) -> bool {
    &&& chapter_link_spec(r.href@) == Some((c.id, c.slug@))
    &&& parse_u64(r.unixtime@) == Some(c.timestamp)
    &&& c.title@ == trimmed(r.text@)
}

/// Some chapter of `cs` is what row `r` reads as.
pub open spec fn appears(cs: Seq<SpineChapter>, r: ChapterRow) -> bool {
    exists|k: int| 0 <= k < cs.len() && reads_as(r, #[trigger] cs[k])
}

/// Some row of `rows` reads as `c`.
pub open spec fn sourced(rows: Seq<ChapterRow>, c: SpineChapter) -> bool {
    exists|j: int| 0 <= j < rows.len() && reads_as(#[trigger] rows[j], c)
}

/// Builds a fiction's table of contents from its final address, its page
/// title and its rows. Fails when the address has no slug, at the first row
/// that does not read, or when there is no row; otherwise the chapters are
/// what the rows read as, each distinct reading once, ordered by id, then
/// timestamp, then row order.
#[verifier::rlimit(80)]
pub fn build_spine(id: u64, url_final: &str, page_title: &str, rows: &Vec<ChapterRow>) -> (r: Result<Spine, SpineError>)
    ensures
        slug_spec(url_final@) is None ==> r == Err::<Spine, SpineError>(SpineError::NoSlug),
        r matches Err(SpineError::BadRow(i)) ==> i < rows@.len() && !row_ok(rows@[i as int])
            && forall|j: int| 0 <= j < i ==> row_ok(#[trigger] rows@[j]),
        slug_spec(url_final@) is Some && rows@.len() == 0 ==> r == Err::<Spine, SpineError>(SpineError::NoChapters),
        r is Ok <==> slug_spec(url_final@) is Some && rows@.len() > 0
            && forall|j: int| 0 <= j < rows@.len() ==> row_ok(#[trigger] rows@[j]),
        r matches Ok(s) ==> {
            &&& s.id == id
            &&& Some(s.slug@) == slug_spec(url_final@)
            &&& s.title@ == trimmed(first_piece(page_title@, seq!['|']))
            &&& in_order(s.chapters@)
            &&& distinct_chapters(s.chapters@)
            &&& forall|k: int| 0 <= k < s.chapters@.len() ==> sourced(rows@, #[trigger] s.chapters@[k])
            &&& forall|j: int| 0 <= j < rows@.len() ==> appears(s.chapters@, #[trigger] rows@[j])
        },
{
    let slug = match slug_of_url(url_final) {
        None => { return Err(SpineError::NoSlug); },
        Some(s) => s,
    };
    if rows.len() == 0 {
        return Err(SpineError::NoChapters);
    }
    let mut chapters: Vec<SpineChapter> = Vec::new();
    let mut i: usize = 0;
    while i < rows.len()
        invariant
            i <= rows@.len(),
            slug_spec(url_final@) == Some(slug@),
            in_order(chapters@),
            distinct_chapters(chapters@),
            forall|j: int| 0 <= j < i ==> row_ok(#[trigger] rows@[j]),
            forall|k: int| 0 <= k < chapters@.len() ==> sourced(rows@, #[trigger] chapters@[k]),
            forall|j: int| 0 <= j < i ==> appears(chapters@, #[trigger] rows@[j]),
        decreases rows@.len() - i,
    {
        let row = &rows[i];
        match spine_chapter_of(row.text.as_str(), row.href.as_str(), row.unixtime.as_str()) {
            None => {
                assert(!row_ok(rows@[i as int]));
                return Err(SpineError::BadRow(i));
            },
            Some(c) => {
                let ghost old_cs = chapters@;
                let ghost cc = c;
                assert(reads_as(rows@[i as int], cc));
                assert(sourced(rows@, cc));
                insert_chapter(&mut chapters, c);
                proof {
                    if listed(old_cs, cc) {
                        let q = choose|q: int| 0 <= q < old_cs.len() && same_chapter(#[trigger] old_cs[q], cc);
                        assert(reads_as(rows@[i as int], chapters@[q]));
                    } else {
                        let p = choose|p: int| {
                            &&& 0 <= p <= old_cs.len()
                            &&& chapters@ == old_cs.insert(p, cc)
                            &&& forall|m: int| 0 <= m < p ==> key_le(#[trigger] old_cs[m], cc)
                            &&& forall|m: int| p <= m < old_cs.len() ==> !key_le(#[trigger] old_cs[m], cc)
                        };
                        assert forall|k: int| 0 <= k < chapters@.len() implies sourced(rows@, #[trigger] chapters@[k]) by {
                            if k < p {
                                assert(chapters@[k] == old_cs[k]);
                            } else if k > p {
                                assert(chapters@[k] == old_cs[k - 1]);
                            }
                        }
                        assert forall|j: int| 0 <= j < i + 1 implies appears(chapters@, #[trigger] rows@[j]) by {
                            if j == i {
                                assert(chapters@[p] == cc);
                            } else {
                                assert(appears(old_cs, rows@[j]));
                                let k0 = choose|k: int| 0 <= k < old_cs.len() && reads_as(rows@[j], #[trigger] old_cs[k]);
                                if k0 < p {
                                    assert(chapters@[k0] == old_cs[k0]);
                                } else {
                                    assert(chapters@[k0 + 1] == old_cs[k0]);
                                }
                            }
                        }
                    }
                }
            },
        }
        i = i + 1;
    }
    let title = title_of(page_title);
    Ok(Spine { id, title, slug, chapters })
}

} // verus!
