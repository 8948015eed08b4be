//! Playlist Export (CSV / text) and the parsing side of Import
//! ("Artist — Track" lines).
use vstd::prelude::*;
use vstd::string::StringExecFns;

use crate::error::AppError;
use crate::models::str_eq;
use crate::text::{
    char_is_alphanumeric, chars_of, concat_chars, decimal_chars, decimal_spec, first_occurrence,
    find_sub, has_sub, is_alphanumeric_char, is_first_occurrence, is_whitespace_char, lemma_first_occurrence_unique, occurs_at,
    string_from_chars, trim_end, trim_start,
    subrange_chars, trim, trim_chars,
};
use crate::tracks::TrackInfo;

verus! {

#[derive(Debug, Clone)]
pub struct ExportContent {
    pub file_name: String,
    pub content: String,
    pub tracks: usize,
}

#[derive(Debug, Clone)]
pub struct ImportProgress {
    pub done: usize,
    pub total: usize,
}

// ---- CSV ---------------------------------------------------------------------

pub open spec fn needs_quotes(s: Seq<char>) -> bool {
    s.contains(',') || s.contains('"') || s.contains('\n') || s.contains('\r')
}

/// Every `"` doubled.
pub open spec fn double_quotes(s: Seq<char>) -> Seq<char>
    decreases s.len(),
{
    if s.len() == 0 {
        Seq::empty()
    } else {
        double_quotes(s.drop_last()) + if s.last() == '"' {
            seq!['"', '"']
        } else {
            seq![s.last()]
        }
    }
}

pub open spec fn csv_field_spec(s: Seq<char>) -> Seq<char> {
    if needs_quotes(s) {
        seq!['"'] + double_quotes(s) + seq!['"']
    } else {
        s
    }
}

/// A CSV field: quoted, with inner quotes doubled, when it holds a comma,
/// a quote or a line break.
pub fn csv_field(s: &str) -> (r: String)
    ensures
        r@ == csv_field_spec(s@),
{
    let c = chars_of(s);
    let mut special = false;
    let mut escaped: Vec<char> = Vec::new();
    let mut k: usize = 0;
    while k < c.len()
        invariant
            c@ == s@,
            k <= c.len(),
            special == needs_quotes(c@.subrange(0, k as int)),
            escaped@ == double_quotes(c@.subrange(0, k as int)),
        decreases c.len() - k,
    {
        let ch = c[k];
        let ghost pre = c@.subrange(0, k as int);
        assert(c@.subrange(0, k + 1) =~= pre.push(ch));
        assert(c@.subrange(0, k + 1).drop_last() =~= pre);
        if ch == ',' || ch == '"' || ch == '\n' || ch == '\r' {
            special = true;
        }
        if ch == '"' {
            escaped.push('"');
            escaped.push('"');
        } else {
            escaped.push(ch);
        }
        proof {
            let now = pre.push(ch);
            assert forall|x: char| now.contains(x) <==> (pre.contains(x) || x == ch) by {
                if now.contains(x) {
                    let i = choose|i: int| 0 <= i < now.len() && now[i] == x;
                    if i < pre.len() {
                        assert(pre[i] == x);
                    }
                }
                if pre.contains(x) {
                    let i = choose|i: int| 0 <= i < pre.len() && pre[i] == x;
                    assert(now[i] == x);
                }
                if x == ch {
                    assert(now[pre.len() as int] == x);
                }
            }
        }
        k += 1;
    }
    assert(c@.subrange(0, c.len() as int) =~= c@);
    if special {
        let mut q: Vec<char> = Vec::new();
        q.push('"');
        let body = concat_chars(&q, &escaped);
        let all = concat_chars(&body, &q);
        string_from_chars(all.as_slice())
    } else {
        string_from_chars(c.as_slice())
    }
}

// ---- durations ----------------------------------------------------------------

pub open spec fn two_digits(n: nat) -> Seq<char> {
    if n < 10 {
        seq!['0'] + decimal_spec(n)
    } else {
        decimal_spec(n)
    }
}

pub open spec fn mmss_spec(ms: Option<u64>) -> Seq<char> {
    match ms {
        Some(ms) => decimal_spec((ms / 60000) as nat) + seq![':'] + two_digits(
            ((ms / 1000) % 60) as nat,
        ),
        None => Seq::empty(),
    }
}

/// `m:ss` for a duration in milliseconds; empty when unknown.
pub fn mmss(ms: Option<u64>) -> (r: String)
    ensures
        r@ == mmss_spec(ms),
{
    match ms {
        Some(ms) => {
            let minutes = decimal_chars(ms / 60000);
            let secs = (ms / 1000) % 60;
            let mut colon: Vec<char> = Vec::new();
            colon.push(':');
            let mut sec_text: Vec<char> = Vec::new();
            if secs < 10 {
                sec_text.push('0');
            }
            let sec_digits = decimal_chars(secs);
            let sec_all = concat_chars(&sec_text, &sec_digits);
            assert(sec_all@ =~= two_digits(secs as nat));
            let head = concat_chars(&minutes, &colon);
            let all = concat_chars(&head, &sec_all);
            string_from_chars(all.as_slice())
        },
        None => String::new(),
    }
}

// ---- file names -------------------------------------------------------------------

pub open spec fn stem_char(c: char) -> char {
    if is_alphanumeric_char(c) || c == ' ' || c == '-' || c == '_' {
        c
    } else {
        '_'
    }
}

pub open spec fn safe_file_stem_spec(name: Seq<char>) -> Seq<char> {
    let stem = trim(name.map_values(|c: char| stem_char(c)));
    if stem.len() == 0 {
        "playlist"@
    } else {
        stem
    }
}

/// A file name stem: anything but letters, digits, space, `-` and `_`
/// becomes `_`; trimmed; `playlist` when nothing is left.
pub fn safe_file_stem(name: &str) -> (r: String)
    ensures
        r@ == safe_file_stem_spec(name@),
{
    let c = chars_of(name);
    let mut m: Vec<char> = Vec::new();
    let mut k: usize = 0;
    while k < c.len()
        invariant
            c@ == name@,
            k <= c.len(),
            m@ == c@.subrange(0, k as int).map_values(|c: char| stem_char(c)),
        decreases c.len() - k,
    {
        let ch = c[k];
        let keep = char_is_alphanumeric(ch) || ch == ' ' || ch == '-' || ch == '_';
        m.push(
            if keep {
                ch
            } else {
                '_'
            },
        );
        k += 1;
        assert(m@ =~= c@.subrange(0, k as int).map_values(|c: char| stem_char(c)));
    }
    assert(c@.subrange(0, c.len() as int) =~= c@);
    let t = trim_chars(&m);
    if t.len() == 0 {
        String::from_str("playlist")
    } else {
        string_from_chars(t.as_slice())
    }
}

// ---- import lines --------------------------------------------------------------------

/// Splitting at the first `sep`: both sides trimmed, kept only if neither is empty.
pub open spec fn split_pair(l: Seq<char>, sep: Seq<char>) -> Option<(Seq<char>, Seq<char>)> {
    if has_sub(l, sep) {
        let i = first_occurrence(l, sep);
        let a = trim(l.subrange(0, i));
        let b = trim(l.subrange(i + sep.len(), l.len() as int));
        if a.len() > 0 && b.len() > 0 {
            Some((a, b))
        } else {
            None
        }
    } else {
        None
    }
}

/// "Artist — Track" with an em dash, en dash, tab or hyphen (tried in that
/// order); a line without a usable separator is a title query; blank lines
/// and `#` comments are no query at all.
pub open spec fn parse_line_spec(line: Seq<char>) -> Option<(Option<Seq<char>>, Seq<char>)> {
    let l = trim(line);
    if l.len() == 0 || l[0] == '#' {
        None
    } else if split_pair(l, " — "@) is Some {
        Some((Some(split_pair(l, " — "@)->Some_0.0), split_pair(l, " — "@)->Some_0.1))
    } else if split_pair(l, " – "@) is Some {
        Some((Some(split_pair(l, " – "@)->Some_0.0), split_pair(l, " – "@)->Some_0.1))
    } else if split_pair(l, "\t"@) is Some {
        Some((Some(split_pair(l, "\t"@)->Some_0.0), split_pair(l, "\t"@)->Some_0.1))
    } else if split_pair(l, " - "@) is Some {
        Some((Some(split_pair(l, " - "@)->Some_0.0), split_pair(l, " - "@)->Some_0.1))
    } else {
        Some((None, l))
    }
}

fn try_split(l: &Vec<char>, sep: &Vec<char>) -> (r: Option<(Vec<char>, Vec<char>)>)
    ensures
        match r {
            Some((a, b)) => split_pair(l@, sep@) == Some((a@, b@)),
            None => split_pair(l@, sep@) is None,
        },
{
    match find_sub(l, sep) {
        Some(i) => {
            proof {
                lemma_first_occurrence_unique(l@, sep@, i as int);
            }
            assert(occurs_at(l@, sep@, i as int));
            assert(i + sep@.len() <= l@.len());
            let n = sep.len();
            let total = l.len();
            assert(i + n <= total);
            let start: usize = i + n;
            let a = trim_chars(&subrange_chars(l, 0, i));
            let b = trim_chars(&subrange_chars(l, start, l.len()));
            if a.len() > 0 && b.len() > 0 {
                Some((a, b))
            } else {
                None
            }
        },
        None => None,
    }
}

pub open spec fn parsed_view(r: Option<(Option<String>, String)>) -> Option<(Option<Seq<char>>, Seq<char>)> {
    match r {
        Some((a, t)) => Some((match a {
            Some(x) => Some(x@),
            None => None,
        }, t@)),
        None => None,
    }
}

/// The separators a pasted line is split at, in the order they are tried.
pub open spec fn line_separators() -> Seq<Seq<char>> {
    seq![" — "@, " – "@, "\t"@, " - "@]
}

/// A separator splits a line into artist and title: a trimmed line
/// "a <sep> b" that is not a comment, holds none of the separators tried
/// before `sep`, whose first `sep` ends `a`, and whose sides are not blank,
/// parses as the artist `trim(a)` and the title `trim(b)`.
pub proof fn separators_split_artist_and_title(a: Seq<char>, q: int, b: Seq<char>)
    requires
        0 <= q < 4,
        trim(a + line_separators()[q] + b) == a + line_separators()[q] + b,
        (a + line_separators()[q] + b)[0] != '#',
        forall|e: int| 0 <= e < q ==> !has_sub(a + line_separators()[q] + b, #[trigger] line_separators()[e]),
        forall|j: int| 0 <= j < a.len() ==> !occurs_at(a + line_separators()[q] + b, line_separators()[q], j),
        trim(a).len() > 0,
        trim(b).len() > 0,
    ensures
        parse_line_spec(a + line_separators()[q] + b) == Some((Some(trim(a)), trim(b))),
{
    reveal_strlit(" – ");
    reveal_strlit(" — ");
    reveal_strlit("\t");
    reveal_strlit(" - ");
    let dash = line_separators()[q];
    let l = a + dash + b;
    let i = a.len() as int;
    assert(l.subrange(i, i + dash.len()) =~= dash);
    assert(occurs_at(l, dash, i));
    lemma_first_occurrence_unique(l, dash, i);
    assert(l.subrange(0, i) =~= a);
    assert(l.subrange(i + dash.len(), l.len() as int) =~= b);
    assert(split_pair(l, dash) == Some((trim(a), trim(b))));
    if q > 0 {
        assert(!has_sub(l, line_separators()[0]));
    }
    if q > 1 {
        assert(!has_sub(l, line_separators()[1]));
    }
    if q > 2 {
        assert(!has_sub(l, line_separators()[2]));
    }
}

/// Blank lines and `#` comments give no query; a line holding none of the
/// separators is a title query of the whole trimmed line.
pub proof fn plain_lines_are_title_queries(line: Seq<char>)
    ensures
        parse_line_spec(line) is None <==> (trim(line).len() == 0 || trim(line)[0] == '#'),
        trim(line).len() > 0 && trim(line)[0] != '#' && (forall|e: int|
            0 <= e < 4 ==> !has_sub(trim(line), #[trigger] line_separators()[e])) ==> parse_line_spec(line)
            == Some((None::<Seq<char>>, trim(line))),
{
    let l = trim(line);
    if l.len() > 0 && l[0] != '#' && (forall|e: int| 0 <= e < 4 ==> !has_sub(l, #[trigger] line_separators()[e])) {
        assert(!has_sub(l, line_separators()[0]));
        assert(!has_sub(l, line_separators()[1]));
        assert(!has_sub(l, line_separators()[2]));
        assert(!has_sub(l, line_separators()[3]));
    }
}

/// Split "Artist — Track" (em dash, en dash, hyphen, or tab). Lines with no
/// separator become a free-text title query.
pub fn parse_line(line: &str) -> (r: Option<(Option<String>, String)>)
    ensures
        parsed_view(r) == parse_line_spec(line@),
{
    let l = trim_chars(&chars_of(line));
    if l.len() == 0 || l[0] == '#' {
        return None;
    }
    match try_split(&l, &chars_of(" — ")) {
        Some((a, b)) => {
            return Some((Some(string_from_chars(a.as_slice())), string_from_chars(b.as_slice())));
        },
        None => {},
    }
    match try_split(&l, &chars_of(" – ")) {
        Some((a, b)) => {
            return Some((Some(string_from_chars(a.as_slice())), string_from_chars(b.as_slice())));
        },
        None => {},
    }
    match try_split(&l, &chars_of("\t")) {
        Some((a, b)) => {
            return Some((Some(string_from_chars(a.as_slice())), string_from_chars(b.as_slice())));
        },
        None => {},
    }
    match try_split(&l, &chars_of(" - ")) {
        Some((a, b)) => {
            return Some((Some(string_from_chars(a.as_slice())), string_from_chars(b.as_slice())));
        },
        None => {},
    }
    Some((None, string_from_chars(l.as_slice())))
}

/// At most this many lines per import.
pub const MAX_IMPORT_LINES: usize = 500;

/// The queries of a pasted list, in order: each line that parses, with its
/// trimmed text, artist and title.
pub open spec fn import_queries(lines: Seq<String>) -> Seq<(Seq<char>, Option<Seq<char>>, Seq<char>)>
    decreases lines.len(),
{
    if lines.len() == 0 {
        Seq::empty()
    } else {
        let prev = import_queries(lines.drop_last());
        match parse_line_spec(lines.last()@) {
            Some((a, t)) => prev.push((trim(lines.last()@), a, t)),
            None => prev,
        }
    }
}

pub open spec fn query_view(q: (String, Option<String>, String)) -> (Seq<char>, Option<Seq<char>>, Seq<char>) {
    (q.0@, match q.1 {
        Some(a) => Some(a@),
        None => None,
    }, q.2@)
}

/// The queries of a pasted list; an error when no line parses or more than
/// `MAX_IMPORT_LINES` do.
pub fn parse_import_lines(lines: &Vec<String>) -> (r: Result<Vec<(String, Option<String>, String)>, AppError>)
    ensures
        import_queries(lines@).len() == 0 ==> (r matches Err(AppError::Other(m)) && m@
            == "Paste at least one line like: Artist — Track"@),
        import_queries(lines@).len() > MAX_IMPORT_LINES ==> (r matches Err(AppError::Other(m)) && m@
            == "Import at most 500 lines at a time."@),
        0 < import_queries(lines@).len() <= MAX_IMPORT_LINES ==> (r matches Ok(v) && v@.map_values(
            |q: (String, Option<String>, String)| query_view(q),
        ) == import_queries(lines@)),
{
    let mut out: Vec<(String, Option<String>, String)> = Vec::new();
    let mut k: usize = 0;
    while k < lines.len()
        invariant
            k <= lines@.len(),
            out@.map_values(|q: (String, Option<String>, String)| query_view(q)) == import_queries(
                lines@.subrange(0, k as int),
            ),
        decreases lines@.len() - k,
    {
        let ghost pre = lines@.subrange(0, k as int);
        assert(lines@.subrange(0, k + 1).drop_last() =~= pre);
        assert(lines@.subrange(0, k + 1).last() == lines@[k as int]);
        let ghost before = out@;
        match parse_line(lines[k].as_str()) {
            Some((a, t)) => {
                let trimmed = string_from_chars(trim_chars(&chars_of(lines[k].as_str())).as_slice());
                let q = (trimmed, a, t);
                out.push(q);
                assert(out@.map_values(|q: (String, Option<String>, String)| query_view(q)) =~= before.map_values(
                    |q: (String, Option<String>, String)| query_view(q),
                ).push(query_view(q)));
            },
            None => {},
        }
        k += 1;
    }
    assert(lines@.subrange(0, lines@.len() as int) =~= lines@);
    if out.len() == 0 {
        return Err(AppError::Other(String::from_str("Paste at least one line like: Artist — Track")));
    }
    if out.len() > MAX_IMPORT_LINES {
        return Err(AppError::Other(String::from_str("Import at most 500 lines at a time.")));
    }
    Ok(out)
}

// ---- export -----------------------------------------------------------------------

pub open spec fn opt_text(o: Option<String>) -> Seq<char> {
    match o {
        Some(s) => s@,
        None => Seq::empty(),
    }
}

pub open spec fn opt_decimal(o: Option<u64>) -> Seq<char> {
    match o {
        Some(d) => decimal_spec(d as nat),
        None => Seq::empty(),
    }
}

/// One CSV line of a track.
pub open spec fn csv_line(t: TrackInfo) -> Seq<char> {
    decimal_spec((t.position + 1) as nat) + ","@ + csv_field_spec(t.name@) + ","@ + csv_field_spec(
        t.artists@,
    ) + ","@ + csv_field_spec(opt_text(t.album)) + ","@ + mmss_spec(t.duration_ms) + ","@
        + opt_decimal(t.duration_ms) + ","@ + opt_text(t.added_at) + ","@ + t.uri@ + "\n"@
}

/// One text line of a track: `Artists — Title`.
pub open spec fn txt_line(t: TrackInfo) -> Seq<char> {
    t.artists@ + " — "@ + t.name@ + "\n"@
}

pub open spec fn lines_of(tracks: Seq<TrackInfo>, csv: bool) -> Seq<char>
    decreases tracks.len(),
{
    if tracks.len() == 0 {
        Seq::empty()
    } else {
        lines_of(tracks.drop_last(), csv) + if csv {
            csv_line(tracks.last())
        } else {
            txt_line(tracks.last())
        }
    }
}

pub open spec fn csv_header() -> Seq<char> {
    "position,title,artists,album,duration,duration_ms,added_at,uri\n"@
}

fn push_str(out: &mut Vec<char>, s: &str)
    ensures
        final(out)@ == old(out)@ + s@,
{
    let c = chars_of(s);
    let joined = concat_chars(out, &c);
    *out = joined;
}

fn push_chars(out: &mut Vec<char>, s: &Vec<char>)
    ensures
        final(out)@ == old(out)@ + s@,
{
    let joined = concat_chars(out, s);
    *out = joined;
}

fn opt_str_chars(o: &Option<String>) -> (r: Vec<char>)
    ensures
        r@ == opt_text(*o),
{
    match o {
        Some(s) => chars_of(s.as_str()),
        None => Vec::new(),
    }
}

fn csv_line_chars(t: &TrackInfo) -> (out: Vec<char>)
    requires
        0 <= t.position < i64::MAX,
    ensures
        out@ == csv_line(*t),
{
    let mut out: Vec<char> = Vec::new();
    let pos: u64 = (t.position + 1) as u64;
    push_chars(&mut out, &decimal_chars(pos));
    push_str(&mut out, ",");
    push_str(&mut out, csv_field(t.name.as_str()).as_str());
    push_str(&mut out, ",");
    push_str(&mut out, csv_field(t.artists.as_str()).as_str());
    push_str(&mut out, ",");
    let album = string_from_chars(opt_str_chars(&t.album).as_slice());
    push_str(&mut out, csv_field(album.as_str()).as_str());
    push_str(&mut out, ",");
    push_str(&mut out, mmss(t.duration_ms).as_str());
    push_str(&mut out, ",");
    match t.duration_ms {
        Some(d) => push_chars(&mut out, &decimal_chars(d)),
        None => {},
    }
    push_str(&mut out, ",");
    push_chars(&mut out, &opt_str_chars(&t.added_at));
    push_str(&mut out, ",");
    push_str(&mut out, t.uri.as_str());
    push_str(&mut out, "\n");
    assert(out@ =~= csv_line(*t));
    out
}

fn txt_line_chars(t: &TrackInfo) -> (out: Vec<char>)
    ensures
        out@ == txt_line(*t),
{
    let mut out: Vec<char> = Vec::new();
    push_str(&mut out, t.artists.as_str());
    push_str(&mut out, " — ");
    push_str(&mut out, t.name.as_str());
    push_str(&mut out, "\n");
    assert(out@ =~= txt_line(*t));
    out
}

/// The export file for a playlist called `name`: CSV (with a header) or
/// `Artist — Track` text, one line per track; other formats are refused.
pub fn export_content(name: &str, tracks: &Vec<TrackInfo>, format: &str) -> (r: Result<ExportContent, AppError>)
    requires
        forall|k: int| 0 <= k < tracks@.len() ==> 0 <= #[trigger] tracks@[k].position < i64::MAX,
    ensures
        r is Ok <==> (format@ == "csv"@ || format@ == "txt"@),
        r matches Ok(e) ==> {
            &&& e.tracks == tracks@.len()
            &&& e.file_name@ == safe_file_stem_spec(name@) + "."@ + format@
            &&& e.content@ == if format@ == "csv"@ {
                csv_header() + lines_of(tracks@, true)
            } else {
                lines_of(tracks@, false)
            }
        },
        r matches Err(e) ==> e matches AppError::Other(m) && m@ == "unknown export format '"@
            + format@ + "'"@,
{
    let csv = str_eq(format, "csv");
    let txt = str_eq(format, "txt");
    if !csv && !txt {
        let mut m: Vec<char> = chars_of("unknown export format '");
        push_str(&mut m, format);
        push_str(&mut m, "'");
        return Err(AppError::Other(string_from_chars(m.as_slice())));
    }
    let mut out: Vec<char> = Vec::new();
    if csv {
        push_str(&mut out, "position,title,artists,album,duration,duration_ms,added_at,uri\n");
    }
    let ghost head = out@;
    let mut k: usize = 0;
    while k < tracks.len()
        invariant
            k <= tracks@.len(),
            forall|q: int| 0 <= q < tracks@.len() ==> 0 <= #[trigger] tracks@[q].position < i64::MAX,
            out@ == head + lines_of(tracks@.subrange(0, k as int), csv),
        decreases tracks@.len() - k,
    {
        let t = &tracks[k];
        assert(tracks@.subrange(0, k + 1).drop_last() =~= tracks@.subrange(0, k as int));
        assert(tracks@.subrange(0, k + 1).last() == *t);
        let ghost before = out@;
        if csv {
            push_chars(&mut out, &csv_line_chars(t));
        } else {
            push_chars(&mut out, &txt_line_chars(t));
        }
        k += 1;
    }
    assert(tracks@.subrange(0, tracks@.len() as int) =~= tracks@);
    let mut file_name = chars_of(safe_file_stem(name).as_str());
    push_str(&mut file_name, ".");
    push_str(&mut file_name, format);
    Ok(ExportContent {
        file_name: string_from_chars(file_name.as_slice()),
        content: string_from_chars(out.as_slice()),
        tracks: tracks.len(),
    })
}

// ---- searching for an imported line -------------------------------------------------------

/// The first search for a line: Spotify's field syntax for the title and,
/// when known, the artist.
pub open spec fn structured_query_spec(artist: Option<Seq<char>>, title: Seq<char>) -> Seq<char> {
    match artist {
        Some(a) => "track:\""@ + title + "\" artist:\""@ + a + "\""@,
        None => "track:\""@ + title + "\""@,
    }
}

/// The fallback search when the first finds nothing: plain words.
pub open spec fn plain_query_spec(artist: Option<Seq<char>>, title: Seq<char>) -> Seq<char> {
    match artist {
        Some(a) => a + " "@ + title,
        None => title,
    }
}

fn join3(a: &str, b: &str, c: &str) -> (r: Vec<char>)
    ensures
        r@ == a@ + b@ + c@,
{
    let ab = concat_chars(&chars_of(a), &chars_of(b));
    concat_chars(&ab, &chars_of(c))
}

pub fn structured_query(artist: Option<&str>, title: &str) -> (r: String)
    ensures
        r@ == structured_query_spec(
            match artist {
                Some(a) => Some(a@),
                None => None,
            },
            title@,
        ),
{
    match artist {
        Some(a) => {
            let head = join3("track:\"", title, "\" artist:\"");
            let all = concat_chars(&head, &join3(a, "\"", ""));
            proof {
                reveal_strlit("");
            }
            assert(all@ =~= "track:\""@ + title@ + "\" artist:\""@ + a@ + "\""@);
            string_from_chars(all.as_slice())
        },
        None => {
            let all = join3("track:\"", title, "\"");
            string_from_chars(all.as_slice())
        },
    }
}

pub fn plain_query(artist: Option<&str>, title: &str) -> (r: String)
    ensures
        r@ == plain_query_spec(
            match artist {
                Some(a) => Some(a@),
                None => None,
            },
            title@,
        ),
{
    match artist {
        Some(a) => {
            let all = join3(a, " ", title);
            string_from_chars(all.as_slice())
        },
        None => String::from_str(title),
    }
}


/// A line of a text export reads back as the artists and title it was
/// written from, when both carry no surrounding whitespace, the artists do
/// not start with `#` (a comment), hold no em dash and do not end in a
/// space (either would move the split).
pub proof fn text_export_reads_back(t: TrackInfo)
    requires
        t.artists@.len() > 0,
        t.name@.len() > 0,
        !is_whitespace_char(t.artists@[0]),
        !is_whitespace_char(t.artists@.last()),
        !is_whitespace_char(t.name@[0]),
        !is_whitespace_char(t.name@.last()),
        t.artists@[0] != '#',
        t.artists@.last() != ' ',
        !t.artists@.contains('—'),
    ensures
        parse_line_spec(txt_line(t).drop_last()) == Some((Some(t.artists@), t.name@)),
{
    reveal_strlit(" — ");
    reveal_strlit("\n");
    let a = t.artists@;
    let n = t.name@;
    let sep = " — "@;
    let l = a + sep + n;
    assert(sep =~= seq![' ', '—', ' ']);
    assert(txt_line(t).drop_last() =~= l);
    assert(l[0] == a[0]);
    assert(l.last() == n.last());
    assert(trim_start(l) == l);
    assert(trim_end(l) == l);
    assert(trim(l) == l);
    let i = a.len() as int;
    assert(l.subrange(i, i + 3) =~= sep);
    assert forall|j: int| 0 <= j < i implies !occurs_at(l, sep, j) by {
        if occurs_at(l, sep, j) {
            assert(l.subrange(j, j + 3)[1] == sep[1]);
            assert(l[j + 1] == '—');
            if j + 1 < i {
                assert(a[j + 1] == '—');
                assert(a.contains('—'));
            } else {
                assert(l.subrange(j, j + 3)[0] == sep[0]);
                assert(l[j] == a.last());
            }
        }
    }
    assert(is_first_occurrence(l, sep, i));
    lemma_first_occurrence_unique(l, sep, i);
    assert(has_sub(l, sep));
    assert(l.subrange(0, i) =~= a);
    assert(l.subrange(i + 3, l.len() as int) =~= n);
    assert(trim_start(a) == a);
    assert(trim_end(a) == a);
    assert(trim_start(n) == n);
    assert(trim_end(n) == n);
}

} // verus!
