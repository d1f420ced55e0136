//! The admin store's logic: how a note-list query is normalized into query
//! parameters, and how a note is rendered as a Markdown download. The queries
//! themselves run against the SQLite database in the application.
use vstd::prelude::*;
use crate::text::{
    concat2, concat3, decimal_spec, is_blank, is_blank_str, push_char, string_of, trim, trim_spec,
    u64_to_decimal, chars_of,
};
use crate::time::{spec_rfc3339, Timestamp};

verus! {

/// Which notes a list query selects by deletion state.
#[derive(Debug, Clone, Copy, PartialEq, Eq, Structural)]
pub enum NoteStateFilter {
    All,
    Active,
    Deleted,
}

impl NoteStateFilter {
    /// The filter's name as the list query passes it to SQL.
    pub open spec fn sql_spec(self) -> Seq<char> {
        match self {
            NoteStateFilter::All => "all"@,
            NoteStateFilter::Active => "active"@,
            NoteStateFilter::Deleted => "deleted"@,
        }
    }

    pub fn sql_value(self) -> (r: String)
        ensures
            r@ == self.sql_spec(),
    {
        match self {
            NoteStateFilter::All => string_of("all"),
            NoteStateFilter::Active => string_of("active"),
            NoteStateFilter::Deleted => string_of("deleted"),
        }
    }
}

impl Default for NoteStateFilter {
    fn default() -> (r: Self)
        ensures
            r == NoteStateFilter::All,
    {
        NoteStateFilter::All
    }
}

/// A page of the admin note list, optionally filtered by a search text
/// (matched against title and content), a category and a deletion state.
#[derive(Debug, Clone, PartialEq, Eq)]
pub struct NoteListQuery {
    pub page: u64,
    pub page_size: u64,
    pub search: Option<String>,
    pub category: Option<String>,
    pub state: NoteStateFilter,
}

impl NoteListQuery {
    /// The first page of 50 notes, unfiltered.
    pub fn first_page() -> (r: Self)
        ensures
            r.page == 1,
            r.page_size == 50,
            r.search is None,
            r.category is None,
            r.state == NoteStateFilter::All,
    {
        NoteListQuery {
            page: 1,
            page_size: 50,
            search: None,
            category: None,
            state: NoteStateFilter::All,
        }
    }
}

impl Default for NoteListQuery {
    fn default() -> (r: Self)
        ensures
            r.page == 1,
            r.page_size == 50,
            r.search is None,
            r.category is None,
            r.state == NoteStateFilter::All,
    {
        NoteListQuery::first_page()
    }
}

/// The parameters with which a note-list query runs.
#[derive(Debug, Clone, PartialEq, Eq)]
pub struct NoteListParams {
    pub page: u64,
    pub page_size: u64,
    pub search: Option<String>,
    pub search_pattern: Option<String>,
    pub category: Option<String>,
    pub state: String,
    pub offset: i64,
}

/// A trimmed text filter; blank or absent means no filter.
pub open spec fn normalize_optional_spec(value: Option<Seq<char>>) -> Option<Seq<char>> {
    match value {
        None => None,
        Some(v) => if is_blank(v) {
            None
        } else {
            Some(trim_spec(v))
        },
    }
}

/// The view of an optional string.
pub open spec fn opt_str(o: Option<String>) -> Option<Seq<char>> {
    match o {
        Some(s) => Some(s@),
        None => None,
    }
}

/// Trims an optional filter text, treating a blank one as absent.
pub fn normalize_optional(value: Option<&str>) -> (r: Option<String>)
    ensures
        opt_str(r) == normalize_optional_spec(
            match value {
                Some(v) => Some(v@),
                None => None,
            },
        ),
{
    match value {
        None => None,
        Some(v) => {
            let trimmed = trim(v);
            if trimmed.as_str().is_empty() {
                None
            } else {
                Some(trimmed)
            }
        },
    }
}

/// The page actually served: at least the first.
pub open spec fn effective_page(page: u64) -> u64 {
    if page < 1 {
        1
    } else {
        page
    }
}

/// The page size actually served: between 1 and 200.
pub open spec fn effective_page_size(page_size: u64) -> u64 {
    if page_size < 1 {
        1
    } else if page_size > 200 {
        200
    } else {
        page_size
    }
}

/// The number of rows skipped: the rows of the earlier pages, capped at
/// `i64::MAX`.
pub open spec fn page_offset(page: u64, page_size: u64) -> i64 {
    let skipped = (effective_page(page) - 1) * effective_page_size(page_size);
    if skipped > i64::MAX {
        i64::MAX
    } else {
        skipped as i64
    }
}

impl NoteListQuery {
    /// The query's parameters: page at least 1, page size between 1 and 200,
    /// trimmed non-blank filters, a `%…%` LIKE pattern for the search text,
    /// the state filter's SQL name, and the row offset of the page.
    pub fn params(&self) -> (r: NoteListParams)
        ensures
            r.page == effective_page(self.page),
            r.page_size == effective_page_size(self.page_size),
            opt_str(r.search) == normalize_optional_spec(opt_str(self.search)),
            opt_str(r.search_pattern) == match normalize_optional_spec(opt_str(self.search)) {
                Some(s) => Some("%"@ + s + "%"@),
                None => None,
            },
            opt_str(r.category) == normalize_optional_spec(opt_str(self.category)),
            r.state@ == self.state.sql_spec(),
            r.offset == page_offset(self.page, self.page_size),
    {
        let page = if self.page < 1 {
            1
        } else {
            self.page
        };
        let page_size = if self.page_size < 1 {
            1
        } else if self.page_size > 200 {
            200
        } else {
            self.page_size
        };
        let search = match &self.search {
            Some(s) => normalize_optional(Some(s.as_str())),
            None => normalize_optional(None),
        };
        let search_pattern = match &search {
            Some(s) => Some(concat3("%", s.as_str(), "%")),
            None => None,
        };
        let category = match &self.category {
            Some(c) => normalize_optional(Some(c.as_str())),
            None => normalize_optional(None),
        };
        let skipped = match (page - 1).checked_mul(page_size) {
            Some(v) => v,
            None => u64::MAX,
        };
        let offset: i64 = if skipped > i64::MAX as u64 {
            i64::MAX
        } else {
            skipped as i64
        };
        NoteListParams {
            page,
            page_size,
            search,
            search_pattern,
            category,
            state: self.state.sql_value(),
            offset,
        }
    }
}

/// The current state of one note as the admin detail view shows it (the
/// category trimmed).
#[derive(Debug, Clone, PartialEq, Eq)]
pub struct NoteDetail {
    pub id: String,
    pub title: String,
    pub content: String,
    pub category: String,
    pub created_at: Timestamp,
    pub updated_at: Timestamp,
    pub deleted_at: Option<Timestamp>,
    pub content_hash: String,
    pub device_id: String,
    pub revision: u64,
}

/// A note rendered for download.
#[derive(Debug, Clone, PartialEq, Eq)]
pub struct MarkdownDownload {
    pub file_name: String,
    pub markdown: String,
}

/// The summary counters of the admin overview.
#[derive(Debug, Clone, PartialEq, Eq)]
pub struct AdminOverview {
    pub latest_revision: u64,
    pub note_count: u64,
    pub deleted_note_count: u64,
    pub category_count: u64,
    pub latest_snapshot_at: Option<Timestamp>,
}

/// Whether `c` is an ASCII letter or digit.
pub open spec fn is_ascii_alnum(c: char) -> bool {
    ('a' <= c && c <= 'z') || ('A' <= c && c <= 'Z') || ('0' <= c && c <= '9')
}

/// The ASCII lower case of `c`.
pub open spec fn lower(c: char) -> char {
    crate::text::ascii_lower(c)
}

/// File-name characters produced for a title, left to right: ASCII letters
/// and digits lower-cased, each run of spaces, dashes and underscores (not
/// broken by an ASCII letter or digit) collapsed to one dash, all else
/// dropped. The flag records whether the last emitted character came from
/// such a run.
pub open spec fn stem_fold(title: Seq<char>) -> (Seq<char>, bool)
    decreases title.len(),
{
    if title.len() == 0 {
        (Seq::empty(), false)
    } else {
        let (acc, last_was_dash) = stem_fold(title.drop_last());
        let ch = title.last();
        if is_ascii_alnum(ch) {
            (acc.push(lower(ch)), false)
        } else if ch == ' ' || ch == '-' || ch == '_' {
            if last_was_dash {
                (acc, last_was_dash)
            } else {
                (acc.push('-'), true)
            }
        } else {
            (acc, last_was_dash)
        }
    }
}

/// `s` without leading dashes.
pub open spec fn trim_start_dashes(s: Seq<char>) -> Seq<char>
    decreases s.len(),
{
    if s.len() > 0 && s[0] == '-' {
        trim_start_dashes(s.drop_first())
    } else {
        s
    }
}

/// `s` without trailing dashes.
pub open spec fn trim_end_dashes(s: Seq<char>) -> Seq<char>
    decreases s.len(),
{
    if s.len() > 0 && s.last() == '-' {
        trim_end_dashes(s.drop_last())
    } else {
        s
    }
}

/// The file stem for a note title: the title's file-name characters without
/// leading or trailing dashes, or `fallback` when nothing is left.
pub open spec fn sanitize_spec(title: Seq<char>, fallback: Seq<char>) -> Seq<char> {
    let stem = trim_end_dashes(trim_start_dashes(stem_fold(title).0));
    if stem.len() == 0 {
        fallback
    } else {
        stem
    }
}

/// A character a file stem may hold: a lower-case ASCII letter, an ASCII
/// digit, or a dash.
pub open spec fn is_stem_char(c: char) -> bool {
    ('a' <= c && c <= 'z') || ('0' <= c && c <= '9') || c == '-'
}

/// Whether `s` is a well-formed file stem: stem characters only, no dash at
/// either end and no two dashes in a row.
pub open spec fn is_clean_stem(s: Seq<char>) -> bool {
    &&& forall|i: int| 0 <= i < s.len() ==> is_stem_char(#[trigger] s[i])
    &&& s.len() > 0 ==> s[0] != '-' && s.last() != '-'
    &&& forall|i: int| 0 <= i < s.len() - 1 ==> !(#[trigger] s[i] == '-' && s[i + 1] == '-')
}

proof fn lemma_lower_is_stem_char(c: char)
    requires
        is_ascii_alnum(c),
    ensures
        is_stem_char(lower(c)),
        lower(c) != '-',
{
    if 'A' <= c && c <= 'Z' {
        assert((c as u8) as int == c as int);
        assert((((c as u8) + 32) as u8) as int == c as int + 32);
    }
}

proof fn lemma_stem_fold_shape(title: Seq<char>)
    ensures
        forall|i: int|
            0 <= i < stem_fold(title).0.len() ==> is_stem_char(#[trigger] stem_fold(title).0[i]),
        forall|i: int|
            0 <= i < stem_fold(title).0.len() - 1 ==> !(#[trigger] stem_fold(title).0[i] == '-'
                && stem_fold(title).0[i + 1] == '-'),
        stem_fold(title).1 <==> (stem_fold(title).0.len() > 0 && stem_fold(title).0.last() == '-'),
    decreases title.len(),
{
    if title.len() > 0 {
        lemma_stem_fold_shape(title.drop_last());
        let (acc, flag) = stem_fold(title.drop_last());
        let ch = title.last();
        if is_ascii_alnum(ch) {
            lemma_lower_is_stem_char(ch);
        }
        let cur = stem_fold(title).0;
        assert forall|i: int| 0 <= i < cur.len() implies is_stem_char(#[trigger] cur[i]) by {
            if i < acc.len() {
                assert(cur[i] == acc[i]);
            }
        }
        assert forall|i: int| 0 <= i < cur.len() - 1 implies !(#[trigger] cur[i] == '-' && cur[i + 1]
            == '-') by {
            if i + 1 < acc.len() {
                assert(cur[i] == acc[i] && cur[i + 1] == acc[i + 1]);
            } else if i + 1 == acc.len() {
                assert(cur[i] == acc[i]);
            }
        }
    }
}

proof fn lemma_trim_start_dashes_shape(s: Seq<char>)
    ensures
        exists|k: int| 0 <= k <= s.len() && trim_start_dashes(s) == s.subrange(k, s.len() as int),
        trim_start_dashes(s).len() > 0 ==> trim_start_dashes(s)[0] != '-',
    decreases s.len(),
{
    if s.len() > 0 && s[0] == '-' {
        lemma_trim_start_dashes_shape(s.drop_first());
        let k = choose|k: int|
            0 <= k <= s.drop_first().len() && trim_start_dashes(s.drop_first()) == s.drop_first().subrange(
                k,
                s.drop_first().len() as int,
            );
        assert(s.drop_first().subrange(k, s.drop_first().len() as int) =~= s.subrange(k + 1, s.len() as int));
    } else {
        assert(s.subrange(0, s.len() as int) =~= s);
    }
}

proof fn lemma_trim_end_dashes_shape(s: Seq<char>)
    ensures
        exists|k: int| 0 <= k <= s.len() && trim_end_dashes(s) == s.subrange(0, k),
        trim_end_dashes(s).len() > 0 ==> trim_end_dashes(s).last() != '-',
    decreases s.len(),
{
    if s.len() > 0 && s.last() == '-' {
        lemma_trim_end_dashes_shape(s.drop_last());
        let k = choose|k: int|
            0 <= k <= s.drop_last().len() && trim_end_dashes(s.drop_last()) == s.drop_last().subrange(0, k);
        assert(s.drop_last().subrange(0, k) =~= s.subrange(0, k));
    } else {
        assert(s.subrange(0, s.len() as int) =~= s);
    }
}

/// A file stem made from a title is the fallback or a clean stem: lower-case
/// ASCII letters, digits and single dashes, with no dash at either end.
pub proof fn lemma_file_stem_is_clean(title: Seq<char>, fallback: Seq<char>)
    ensures
        sanitize_spec(title, fallback) == fallback || is_clean_stem(sanitize_spec(title, fallback)),
{
    let folded = stem_fold(title).0;
    lemma_stem_fold_shape(title);
    let a = trim_start_dashes(folded);
    lemma_trim_start_dashes_shape(folded);
    let k1 = choose|k: int| 0 <= k <= folded.len() && a == folded.subrange(k, folded.len() as int);
    let b = trim_end_dashes(a);
    lemma_trim_end_dashes_shape(a);
    let k2 = choose|k: int| 0 <= k <= a.len() && b == a.subrange(0, k);
    if b.len() > 0 {
        assert forall|i: int| 0 <= i < b.len() implies is_stem_char(#[trigger] b[i]) by {
            assert(b[i] == folded[k1 + i]);
        }
        assert forall|i: int| 0 <= i < b.len() - 1 implies !(#[trigger] b[i] == '-' && b[i + 1] == '-') by {
            assert(b[i] == folded[k1 + i] && b[i + 1] == folded[k1 + i + 1]);
        }
        assert(b[0] == a[0]);
    }
}

fn is_ascii_alphanumeric(c: char) -> (r: bool)
    ensures
        r == is_ascii_alnum(c),
{
    ('a' <= c && c <= 'z') || ('A' <= c && c <= 'Z') || ('0' <= c && c <= '9')
}

proof fn lemma_dash_trim_start_step(s: Seq<char>, i: int)
    requires
        0 <= i < s.len(),
        s[i] == '-',
    ensures
        trim_start_dashes(s.subrange(i, s.len() as int)) == trim_start_dashes(
            s.subrange(i + 1, s.len() as int),
        ),
{
    assert(s.subrange(i, s.len() as int).drop_first() =~= s.subrange(i + 1, s.len() as int));
}

proof fn lemma_dash_trim_end_step(s: Seq<char>, j: int)
    requires
        0 < j <= s.len(),
        s[j - 1] == '-',
    ensures
        trim_end_dashes(s.subrange(0, j)) == trim_end_dashes(s.subrange(0, j - 1)),
{
    assert(s.subrange(0, j).drop_last() =~= s.subrange(0, j - 1));
}

/// A file stem derived from a note title: lower-case ASCII letters and
/// digits, with runs of separators turned into single dashes and other
/// characters dropped; `fallback_id` when nothing remains.
pub fn sanitize_file_stem(title: &str, fallback_id: &str) -> (r: String)
    ensures
        r@ == sanitize_spec(title@, fallback_id@),
{
    let chars = chars_of(title);
    let mut stem: Vec<char> = Vec::new();
    let mut last_was_dash = false;
    assert(title@.take(0) =~= Seq::<char>::empty());
    for i in 0..chars.len()
        invariant
            chars@ == title@,
            stem_fold(title@.take(i as int)) == (stem@, last_was_dash),
    {
        proof {
            assert(title@.take(i + 1).drop_last() =~= title@.take(i as int));
        }
        let ch = chars[i];
        if is_ascii_alphanumeric(ch) {
            last_was_dash = false;
            stem.push(crate::text::to_ascii_lower(ch));
        } else if ch == ' ' || ch == '-' || ch == '_' {
            if !last_was_dash {
                last_was_dash = true;
                stem.push('-');
            }
        }
    }
    assert(title@.take(chars@.len() as int) =~= title@);
    let n = stem.len();
    let ghost folded = stem@;
    let mut start: usize = 0;
    assert(folded.subrange(0, n as int) =~= folded);
    while start < n && stem[start] == '-'
        invariant
            start <= n == stem@.len(),
            folded == stem@,
            trim_start_dashes(folded) == trim_start_dashes(folded.subrange(start as int, n as int)),
        decreases n - start,
    {
        proof {
            lemma_dash_trim_start_step(folded, start as int);
        }
        start = start + 1;
    }
    let ghost rest = folded.subrange(start as int, n as int);
    assert(trim_start_dashes(rest) == rest);
    let mut end: usize = n;
    while end > start && stem[end - 1] == '-'
        invariant
            start <= end <= n == stem@.len(),
            folded == stem@,
            rest == folded.subrange(start as int, n as int),
            trim_end_dashes(rest) == trim_end_dashes(folded.subrange(start as int, end as int)),
        decreases end - start,
    {
        proof {
            let sub = folded.subrange(start as int, end as int);
            lemma_dash_trim_end_step(sub, (end - start) as int);
            assert(sub.subrange(0, (end - start) as int) =~= sub);
            assert(sub.subrange(0, (end - start - 1) as int) =~= folded.subrange(start as int, end - 1));
        }
        end = end - 1;
    }
    let ghost fin = folded.subrange(start as int, end as int);
    assert(trim_end_dashes(fin) == fin);
    if start == end {
        return string_of(fallback_id);
    }
    let mut r = String::new();
    let mut k = start;
    while k < end
        invariant
            start <= k <= end <= n == stem@.len(),
            folded == stem@,
            r@ == folded.subrange(start as int, k as int),
        decreases end - k,
    {
        push_char(&mut r, stem[k]);
        assert(r@ =~= folded.subrange(start as int, k + 1));
        k = k + 1;
    }
    r
}

/// The Markdown document for a note: a heading (the title, or the id when the
/// title is blank), the metadata lines, a rule and the content, ending in a
/// newline.
pub open spec fn markdown_spec(
    heading: Seq<char>,
    category: Seq<char>,
    updated: Seq<char>,
    deleted: Option<Seq<char>>,
    revision: u64,
    device: Seq<char>,
    content: Seq<char>,
) -> Seq<char> {
    let body = "# "@ + heading + "\n\n"@ + (if is_blank(category) {
        Seq::empty()
    } else {
        "Category: "@ + category + "\n"@
    }) + "Updated: "@ + updated + "\n"@ + (match deleted {
        Some(d) => "Deleted: "@ + d + "\n"@,
        None => Seq::empty(),
    }) + "Revision: "@ + decimal_spec(revision as nat) + "\n"@ + "Device: "@ + device + "\n\n"@
        + "---\n\n"@ + content;
    if body.len() > 0 && body.last() == '\n' {
        body
    } else {
        body.push('\n')
    }
}

/// The heading of a note's Markdown: its title, or its id for a blank title.
pub open spec fn heading_spec(note: NoteDetail) -> Seq<char> {
    if is_blank(note.title@) {
        note.id@
    } else {
        note.title@
    }
}

/// Whether `chrono` can render every instant the Markdown of `note` shows.
pub open spec fn note_times_renderable(note: NoteDetail) -> bool {
    &&& spec_rfc3339(note.updated_at.secs, note.updated_at.nanos) is Some
    &&& match note.deleted_at {
        Some(d) => spec_rfc3339(d.secs, d.nanos) is Some,
        None => true,
    }
}

fn render_markdown(
    heading: &str,
    category: &str,
    updated: &str,
    deleted: Option<&str>,
    revision: u64,
    device: &str,
    content: &str,
) -> (r: String)
    ensures
        r@ == markdown_spec(
            heading@,
            category@,
            updated@,
            match deleted {
                Some(d) => Some(d@),
                None => None,
            },
            revision,
            device@,
            content@,
        ),
{
    let mut markdown = concat3("# ", heading, "\n\n");
    let ghost m1 = markdown@;
    if !is_blank_str(category) {
        markdown.append("Category: ");
        markdown.append(category);
        markdown.append("\n");
        assert(markdown@ =~= m1 + ("Category: "@ + category@ + "\n"@));
    } else {
        assert(markdown@ =~= m1 + Seq::<char>::empty());
    }
    let ghost m2 = markdown@;
    markdown.append("Updated: ");
    markdown.append(updated);
    markdown.append("\n");
    let ghost m3 = markdown@;
    match deleted {
        Some(d) => {
            markdown.append("Deleted: ");
            markdown.append(d);
            markdown.append("\n");
            assert(markdown@ =~= m3 + ("Deleted: "@ + d@ + "\n"@));
        },
        None => {
            assert(markdown@ =~= m3 + Seq::<char>::empty());
        },
    }
    markdown.append("Revision: ");
    let number = u64_to_decimal(revision);
    markdown.append(number.as_str());
    markdown.append("\n");
    markdown.append("Device: ");
    markdown.append(device);
    markdown.append("\n\n");
    markdown.append("---\n\n");
    markdown.append(content);
    let v = chars_of(markdown.as_str());
    if v.len() == 0 || v[v.len() - 1] != '\n' {
        push_char(&mut markdown, '\n');
    }
    markdown
}

/// Renders a note as a Markdown download named after its sanitized heading.
/// `None` only when an instant it shows is outside what `chrono` can render.
pub fn markdown_download(note: &NoteDetail) -> (r: Option<MarkdownDownload>)
    ensures
        r is Some <==> note_times_renderable(*note),
        r matches Some(d) ==> {
            &&& d.file_name@ == sanitize_spec(heading_spec(*note), note.id@) + ".md"@
            &&& d.markdown@ == markdown_spec(
                heading_spec(*note),
                note.category@,
                spec_rfc3339(note.updated_at.secs, note.updated_at.nanos)->Some_0,
                match note.deleted_at {
                    Some(t) => Some(spec_rfc3339(t.secs, t.nanos)->Some_0),
                    None => None,
                },
                note.revision,
                note.device_id@,
                note.content@,
            )
        },
{
    let updated = match note.updated_at.to_rfc3339() {
        Some(t) => t,
        None => return None,
    };
    let deleted = match &note.deleted_at {
        Some(t) => match t.to_rfc3339() {
            Some(text) => Some(text),
            None => return None,
        },
        None => None,
    };
    let heading = if is_blank_str(note.title.as_str()) {
        note.id.as_str()
    } else {
        note.title.as_str()
    };
    let markdown = match &deleted {
        Some(d) => render_markdown(
            heading,
            note.category.as_str(),
            updated.as_str(),
            Some(d.as_str()),
            note.revision,
            note.device_id.as_str(),
            note.content.as_str(),
        ),
        None => render_markdown(
            heading,
            note.category.as_str(),
            updated.as_str(),
            None,
            note.revision,
            note.device_id.as_str(),
            note.content.as_str(),
        ),
    };
    let stem = sanitize_file_stem(heading, note.id.as_str());
    let file_name = concat2(stem.as_str(), ".md");
    Some(MarkdownDownload { file_name, markdown })
}

} // verus!
