//! Extraction of track identifiers and playlist identifiers from free-form
//! text: URLs, `spotify:track:` URIs, CSV fields and bare identifiers.
use crate::text::{
    alnum, chars_of, is_alnum, lines, occurs_at, lines_text, split_on, split_text, strip_quotes,
    strip_quotes_text, trim, trim_text, views,
};
use vstd::prelude::*;

verus! {

/// The number of characters in a track identifier.
pub const TRACK_ID_LEN: usize = 22;

/// A track identifier: exactly 22 ASCII letters and digits.
pub open spec fn is_track_id(s: Seq<char>) -> bool {
    s.len() == TRACK_ID_LEN && forall|i: int| 0 <= i < s.len() ==> is_alnum(#[trigger] s[i])
}

/// The first index at or after `i` where `pat` stands in `s`.
pub open spec fn find_from(s: Seq<char>, pat: Seq<char>, i: int) -> Option<int>
    decreases s.len() + 1 - i,
{
    if i < 0 || i + pat.len() > s.len() {
        None
    } else if occurs_at(s, pat, i) {
        Some(i)
    } else {
        find_from(s, pat, i + 1)
    }
}

/// The first index where `pat` stands in `s`.
pub open spec fn find(s: Seq<char>, pat: Seq<char>) -> Option<int> {
    find_from(s, pat, 0)
}

/// The end of the run of letters and digits of `s` that starts at `i`.
pub open spec fn alnum_run_end(s: Seq<char>, i: int) -> int
    decreases s.len() - i,
{
    if 0 <= i < s.len() && is_alnum(s[i]) {
        alnum_run_end(s, i + 1)
    } else {
        i
    }
}

/// The run of letters and digits right after the first occurrence of the
/// marker `m` in `s`, where the marker occurs and the run is exactly as long
/// as a track identifier.
pub open spec fn id_after(s: Seq<char>, m: Seq<char>) -> Option<Seq<char>> {
    match find(s, m) {
        Some(p) => {
            let start = p + m.len();
            let end = alnum_run_end(s, start);
            if end - start == TRACK_ID_LEN {
                Some(s.subrange(start, end))
            } else {
                None
            }
        },
        None => None,
    }
}

/// The track identifier that `text` names: after the first `track/`, else
/// after the first `track:`, else the whole trimmed text.
pub open spec fn extract_id(text: Seq<char>) -> Option<Seq<char>> {
    if id_after(text, "track/"@) is Some {
        id_after(text, "track/"@)
    } else if id_after(text, "track:"@) is Some {
        id_after(text, "track:"@)
    } else if is_track_id(trim(text)) {
        Some(trim(text))
    } else {
        None
    }
}

proof fn lemma_find_from_skip(s: Seq<char>, pat: Seq<char>, i: int)
    requires
        0 <= i,
        i + pat.len() <= s.len(),
        !occurs_at(s, pat, i),
    ensures
        find_from(s, pat, i) == find_from(s, pat, i + 1),
{
}

/// Whether `pat` stands in `s` from index `i` on.
fn occurs_at_exec(s: &Vec<char>, pat: &Vec<char>, i: usize) -> (r: bool)
    requires
        i + pat.len() <= s.len(),
    ensures
        r == occurs_at(s@, pat@, i as int),
{
    let mut j: usize = 0;
    while j < pat.len()
        invariant
            j <= pat.len(),
            i + pat.len() <= s.len(),
            forall|k: int| 0 <= k < j ==> s@[i + k] == pat@[k],
        decreases pat.len() - j,
    {
        if s[i + j] != pat[j] {
            assert(s@.subrange(i as int, i + pat.len())[j as int] != pat@[j as int]);
            return false;
        }
        j = j + 1;
    }
    assert(s@.subrange(i as int, i + pat.len()) =~= pat@);
    true
}

/// The first index where `pat` stands in `s`.
pub fn find_exec(s: &Vec<char>, pat: &Vec<char>) -> (r: Option<usize>)
    ensures
        match r {
            Some(p) => find(s@, pat@) == Some(p as int) && p + pat.len() <= s.len(),
            None => find(s@, pat@) is None,
        },
{
    if pat.len() > s.len() {
        return None;
    }
    let last = s.len() - pat.len();
    let mut i: usize = 0;
    while i <= last
        invariant
            last + pat.len() == s.len(),
            find(s@, pat@) == find_from(s@, pat@, i as int),
        decreases last + 1 - i,
    {
        if occurs_at_exec(s, pat, i) {
            return Some(i);
        }
        proof {
            lemma_find_from_skip(s@, pat@, i as int);
        }
        if i == last {
            assert(find_from(s@, pat@, i + 1) is None);
            return None;
        }
        i = i + 1;
    }
    None
}

/// The end of the run of letters and digits of `s` that starts at `i`.
pub fn alnum_run_end_exec(s: &Vec<char>, i: usize) -> (r: usize)
    requires
        i <= s.len(),
    ensures
        r == alnum_run_end(s@, i as int),
        i <= r <= s.len(),
{
    let mut j = i;
    while j < s.len() && alnum(s[j])
        invariant
            i <= j <= s.len(),
            alnum_run_end(s@, i as int) == alnum_run_end(s@, j as int),
        decreases s.len() - j,
    {
        j = j + 1;
    }
    j
}

/// The identifier right after the first occurrence of `marker` in `text`.
fn id_after_exec(text: &str, cs: &Vec<char>, marker: &str) -> (r: Option<String>)
    requires
        cs@ == text@,
    ensures
        match r {
            Some(id) => id_after(text@, marker@) == Some(id@),
            None => id_after(text@, marker@) is None,
        },
{
    let m = chars_of(marker);
    match find_exec(cs, &m) {
        Some(p) => {
            let start = p + m.len();
            let end = alnum_run_end_exec(cs, start);
            if end - start == TRACK_ID_LEN {
                Some(String::from_str(text.substring_char(start, end)))
            } else {
                None
            }
        },
        None => None,
    }
}

/// Whether `s` is a track identifier.
pub fn is_track_id_exec(s: &str) -> (r: bool)
    ensures
        r == is_track_id(s@),
{
    let cs = chars_of(s);
    if cs.len() != TRACK_ID_LEN {
        return false;
    }
    let mut i: usize = 0;
    while i < cs.len()
        invariant
            i <= cs.len(),
            cs@ == s@,
            forall|k: int| 0 <= k < i ==> is_alnum(#[trigger] s@[k]),
        decreases cs.len() - i,
    {
        if !alnum(cs[i]) {
            return false;
        }
        i = i + 1;
    }
    true
}

/// Extracts the track identifier that `text` names: the 22 letters and
/// digits after the first `track/` (as in an open.spotify.com URL), else after
/// the first `track:` (as in a `spotify:track:` URI), else the whole trimmed
/// text if it is an identifier itself.
pub fn extract_track_id_from_text(text: &str) -> (r: Option<String>)
    ensures
        match r {
            Some(id) => extract_id(text@) == Some(id@),
            None => extract_id(text@) is None,
        },
{
    let cs = chars_of(text);
    let by_path = id_after_exec(text, &cs, "track/");
    if by_path.is_some() {
        return by_path;
    }
    let by_uri = id_after_exec(text, &cs, "track:");
    if by_uri.is_some() {
        return by_uri;
    }
    let t = trim_text(text);
    if is_track_id_exec(t.as_str()) {
        Some(t)
    } else {
        None
    }
}

/// The identifiers that `f` finds in each of `items`, in order; items in
/// which it finds none contribute nothing.
pub open spec fn collect_ids(
    items: Seq<Seq<char>>,
    f: spec_fn(Seq<char>) -> Option<Seq<char>>,
) -> Seq<Seq<char>>
    decreases items.len(),
{
    if items.len() == 0 {
        Seq::empty()
    } else {
        let rest = collect_ids(items.drop_last(), f);
        match f(items.last()) {
            Some(id) => rest.push(id),
            None => rest,
        }
    }
}

/// The identifier named by a line, once trimmed.
pub open spec fn url_line_id() -> spec_fn(Seq<char>) -> Option<Seq<char>> {
    |l: Seq<char>| extract_id(trim(l))
}

/// The identifier named by a CSV field, once trimmed and unquoted.
pub open spec fn csv_field_id() -> spec_fn(Seq<char>) -> Option<Seq<char>> {
    |f: Seq<char>| extract_id(strip_quotes(trim(f)))
}

/// A line that, once trimmed, is an identifier by itself.
pub open spec fn plain_line_id() -> spec_fn(Seq<char>) -> Option<Seq<char>> {
    |l: Seq<char>|
        if is_track_id(trim(l)) {
            Some(trim(l))
        } else {
            None
        }
}

/// The identifiers named by the lines of `content`.
pub open spec fn url_ids(content: Seq<char>) -> Seq<Seq<char>> {
    collect_ids(lines(content), url_line_id())
}

/// The identifiers named by the comma-separated fields of one line.
pub open spec fn csv_line_ids(line: Seq<char>) -> Seq<Seq<char>> {
    collect_ids(split_on(line, ','), csv_field_id())
}

/// The identifiers named by the fields of each of `ls`, line after line.
pub open spec fn csv_lines_ids(ls: Seq<Seq<char>>) -> Seq<Seq<char>>
    decreases ls.len(),
{
    if ls.len() == 0 {
        Seq::empty()
    } else {
        csv_lines_ids(ls.drop_last()) + csv_line_ids(ls.last())
    }
}

/// The identifiers named by the comma-separated fields of `content`.
pub open spec fn csv_ids(content: Seq<char>) -> Seq<Seq<char>> {
    csv_lines_ids(lines(content))
}

/// The lines of `content` that are bare identifiers.
pub open spec fn plain_ids(content: Seq<char>) -> Seq<Seq<char>> {
    collect_ids(lines(content), plain_line_id())
}

/// Everything the three readings find, one after the other.
pub open spec fn mixed_ids(content: Seq<char>) -> Seq<Seq<char>> {
    url_ids(content) + csv_ids(content) + plain_ids(content)
}

/// Extracts one identifier per line of `content`, from each line that names
/// one (trimmed; see `extract_track_id_from_text`), in order, duplicates
/// kept.
pub fn extract_from_urls(content: &str) -> (r: Vec<String>)
    ensures
        views(r@) == url_ids(content@),
{
    let ls = lines_text(content);
    let mut r: Vec<String> = Vec::new();
    for i in 0..ls.len()
        invariant
            views(ls@) == lines(content@),
            views(r@) == collect_ids(views(ls@).take(i as int), url_line_id()),
    {
        let ghost done = views(r@);
        assert(views(ls@).take(i + 1).drop_last() =~= views(ls@).take(i as int));
        let t = trim_text(ls[i].as_str());
        match extract_track_id_from_text(t.as_str()) {
            Some(id) => {
                r.push(id);
                assert(views(r@) =~= done.push(r@.last()@));
            },
            None => {},
        }
    }
    assert(views(ls@).take(ls.len() as int) =~= views(ls@));
    r
}

/// Extracts the identifiers named by the comma-separated fields of one line.
fn extract_from_csv_line(line: &str) -> (r: Vec<String>)
    ensures
        views(r@) == csv_line_ids(line@),
{
    let fields = split_text(line, ',');
    let mut r: Vec<String> = Vec::new();
    for i in 0..fields.len()
        invariant
            views(fields@) == split_on(line@, ','),
            views(r@) == collect_ids(views(fields@).take(i as int), csv_field_id()),
    {
        let ghost done = views(r@);
        assert(views(fields@).take(i + 1).drop_last() =~= views(fields@).take(i as int));
        let t = trim_text(fields[i].as_str());
        let u = strip_quotes_text(t.as_str());
        match extract_track_id_from_text(u.as_str()) {
            Some(id) => {
                r.push(id);
                assert(views(r@) =~= done.push(r@.last()@));
            },
            None => {},
        }
    }
    assert(views(fields@).take(fields.len() as int) =~= views(fields@));
    r
}

/// Extracts identifiers from CSV text: every line is split at its commas,
/// and every field, trimmed and with one surrounding double quote taken off
/// each end, is read as `extract_track_id_from_text` reads a text. Order is
/// kept, duplicates too.
pub fn extract_from_csv(content: &str) -> (r: Vec<String>)
    ensures
        views(r@) == csv_ids(content@),
{
    let ls = lines_text(content);
    let mut r: Vec<String> = Vec::new();
    for i in 0..ls.len()
        invariant
            views(ls@) == lines(content@),
            views(r@) == csv_lines_ids(views(ls@).take(i as int)),
    {
        let ghost done = views(r@);
        assert(views(ls@).take(i + 1).drop_last() =~= views(ls@).take(i as int));
        let mut found = extract_from_csv_line(ls[i].as_str());
        let ghost more = views(found@);
        r.append(&mut found);
        assert(views(r@) =~= done + more);
    }
    assert(views(ls@).take(ls.len() as int) =~= views(ls@));
    r
}

/// The lines of `content` that, once trimmed, are identifiers by themselves;
/// no marker is looked for.
pub fn extract_plain_ids(content: &str) -> (r: Vec<String>)
    ensures
        views(r@) == plain_ids(content@),
{
    let ls = lines_text(content);
    let mut r: Vec<String> = Vec::new();
    for i in 0..ls.len()
        invariant
            views(ls@) == lines(content@),
            views(r@) == collect_ids(views(ls@).take(i as int), plain_line_id()),
    {
        let ghost done = views(r@);
        assert(views(ls@).take(i + 1).drop_last() =~= views(ls@).take(i as int));
        let t = trim_text(ls[i].as_str());
        if is_track_id_exec(t.as_str()) {
            r.push(t);
            assert(views(r@) =~= done.push(r@.last()@));
        }
    }
    assert(views(ls@).take(ls.len() as int) =~= views(ls@));
    r
}

/// What the URL, CSV and plain readings of `content` find, concatenated in
/// that order.
pub fn extract_mixed(content: &str) -> (r: Vec<String>)
    ensures
        views(r@) == mixed_ids(content@),
{
    let mut r = extract_from_urls(content);
    let ghost a = views(r@);
    let mut b = extract_from_csv(content);
    let ghost bv = views(b@);
    let mut c = extract_plain_ids(content);
    let ghost cv = views(c@);
    r.append(&mut b);
    assert(views(r@) =~= a + bv);
    r.append(&mut c);
    assert(views(r@) =~= a + bv + cv);
    r
}

/// Why a playlist URL names no playlist.
#[derive(Debug, Clone, Copy, PartialEq, Eq, Structural)]
pub enum PlaylistUrlError {
    /// The URL holds no `/playlist/`.
    MissingMarker,
    /// What follows `/playlist/`, up to a `?`, is not 22 characters long.
    InvalidLength,
}

/// The playlist identifier in `url`: what follows the first `/playlist/` up
/// to the first `?` after it, or to the end, if that is 22 characters long.
pub open spec fn playlist_id_of(url: Seq<char>) -> Result<Seq<char>, PlaylistUrlError> {
    match find(url, "/playlist/"@) {
        None => Err(PlaylistUrlError::MissingMarker),
        Some(p) => {
            let rest = url.subrange(p + "/playlist/"@.len(), url.len() as int);
            let end = match find(rest, "?"@) {
                Some(q) => q,
                None => rest.len() as int,
            };
            if end == TRACK_ID_LEN {
                Ok(rest.subrange(0, end))
            } else {
                Err(PlaylistUrlError::InvalidLength)
            }
        },
    }
}

/// Extracts the playlist identifier from a playlist URL such as
/// `https://open.spotify.com/playlist/<id>?si=...`.
pub fn extract_playlist_id(url: &str) -> (r: Result<String, PlaylistUrlError>)
    ensures
        match r {
            Ok(id) => playlist_id_of(url@) == Ok::<Seq<char>, PlaylistUrlError>(id@),
            Err(e) => playlist_id_of(url@) == Err::<Seq<char>, PlaylistUrlError>(e),
        },
{
    let cs = chars_of(url);
    let marker = chars_of("/playlist/");
    match find_exec(&cs, &marker) {
        None => Err(PlaylistUrlError::MissingMarker),
        Some(p) => {
            let start = p + marker.len();
            let rest = url.substring_char(start, cs.len());
            let rest_cs = chars_of(rest);
            let question = chars_of("?");
            let end = match find_exec(&rest_cs, &question) {
                Some(q) => q,
                None => rest_cs.len(),
            };
            if end == TRACK_ID_LEN {
                Ok(String::from_str(rest.substring_char(0, end)))
            } else {
                Err(PlaylistUrlError::InvalidLength)
            }
        },
    }
}

/// Code-point order of texts, which for UTF-8 text is the byte order that
/// `Ord for String` follows.
pub open spec fn text_le(a: Seq<char>, b: Seq<char>) -> bool
    decreases a.len(),
{
    if a.len() == 0 {
        true
    } else if b.len() == 0 {
        false
    } else if a[0] != b[0] {
        (a[0] as u32) < (b[0] as u32)
    } else {
        text_le(a.drop_first(), b.drop_first())
    }
}

pub proof fn lemma_text_le_antisymmetric(a: Seq<char>, b: Seq<char>)
    requires
        text_le(a, b),
        text_le(b, a),
    ensures
        a == b,
    decreases a.len(),
{
    if a.len() > 0 && b.len() > 0 {
        if a[0] == b[0] {
            lemma_text_le_antisymmetric(a.drop_first(), b.drop_first());
            assert forall|i: int| 0 <= i < a.len() implies a[i] == b[i] by {
                if i > 0 {
                    assert(a[i] == a.drop_first()[i - 1]);
                    assert(b[i] == b.drop_first()[i - 1]);
                }
            }
            assert(a =~= b);
        } else {
            assert((a[0] as u32) != (b[0] as u32));
        }
    } else {
        assert(a =~= b);
    }
}

/// `v` is in increasing order, without repetition.
pub open spec fn sorted_distinct(v: Seq<Seq<char>>) -> bool {
    forall|i: int, j: int| 0 <= i < j < v.len() ==> text_le(v[i], v[j]) && v[i] != v[j]
}

/// `v` holds the identifiers of `found` that have the length of a track
/// identifier, each once, in increasing order.
pub open spec fn finished(found: Seq<Seq<char>>, v: Seq<Seq<char>>) -> bool {
    &&& sorted_distinct(v)
    &&& forall|x: Seq<char>| v.contains(x) <==> (found.contains(x) && x.len() == TRACK_ID_LEN)
}

/// Why an extraction gives no list.
#[derive(Debug, Clone, Copy, PartialEq, Eq, Structural)]
pub enum ExtractError {
    /// The input format is none of `csv`, `urls` and `mixed`.
    UnsupportedFormat,
    /// No identifier was found.
    NoTrackIds,
}

/// Relies on `slice::sort` for `String`s: a permutation of the vector, in
/// the order of `Ord for String`, which compares the UTF-8 bytes
/// lexicographically; on UTF-8 text that is the code-point order `text_le`.
#[verifier::external_body]
fn sort_texts(v: &mut Vec<String>)
    ensures
        views(final(v)@).to_multiset() == views(old(v)@).to_multiset(),
        forall|i: int, j: int|
            0 <= i < j < final(v)@.len() ==> text_le(final(v)@[i]@, final(v)@[j]@),
{
    v.sort()
}

proof fn lemma_take_contains(s: Seq<Seq<char>>, i: int, y: Seq<char>)
    requires
        0 <= i < s.len(),
    ensures
        s.take(i + 1).contains(y) <==> (s.take(i).contains(y) || y == s[i]),
{
    let long = s.take(i + 1);
    let short = s.take(i);
    if long.contains(y) {
        let k = choose|k: int| 0 <= k < long.len() && #[trigger] long[k] == y;
        if k < i {
            assert(short[k] == y);
        }
    }
    if short.contains(y) {
        let k = choose|k: int| 0 <= k < short.len() && #[trigger] short[k] == y;
        assert(long[k] == y);
    }
    if y == s[i] {
        assert(long[i] == y);
    }
}

/// Sorts what was found, drops repetitions and what does not have the length
/// of a track identifier, and fails where nothing is left.
pub fn finish_ids(found: Vec<String>) -> (r: Result<Vec<String>, ExtractError>)
    ensures
        match r {
            Ok(v) => finished(views(found@), views(v@)) && v@.len() > 0,
            Err(e) => e == ExtractError::NoTrackIds && forall|x: Seq<char>|
                #[trigger] views(found@).contains(x) ==> x.len() != TRACK_ID_LEN,
        },
{
    let mut s = found;
    sort_texts(&mut s);
    let ghost sv = views(s@);
    proof {
        assert forall|x: Seq<char>| sv.contains(x) <==> views(found@).contains(x) by {
            vstd::seq_lib::to_multiset_contains(sv, x);
            vstd::seq_lib::to_multiset_contains(views(found@), x);
        }
    }
    let mut r: Vec<String> = Vec::new();
    assert(views(r@) =~= Seq::<Seq<char>>::empty());
    assert(sv.take(0) =~= Seq::<Seq<char>>::empty());
    let n_found = s.len();
    let mut i: usize = 0;
    while i < n_found
        invariant
            i <= n_found == s@.len(),
            sv == views(s@),
            forall|a: int, b: int| 0 <= a < b < sv.len() ==> text_le(sv[a], sv[b]),
            sorted_distinct(views(r@)),
            forall|x: Seq<char>|
                #![trigger views(r@).contains(x)]
                #![trigger sv.take(i as int).contains(x)]
                views(r@).contains(x) <==> (sv.take(i as int).contains(x) && x.len()
                    == TRACK_ID_LEN),
        decreases n_found - i,
    {
        let ghost rv = views(r@);
        let ghost x = sv[i as int];
        assert(x == s@[i as int]@);
        proof {
            assert forall|y: Seq<char>| sv.take(i + 1).contains(y) <==> (sv.take(
                i as int,
            ).contains(y) || y == x) by {
                lemma_take_contains(sv, i as int, y);
            }
        }
        if s[i].unicode_len() == TRACK_ID_LEN {
            let n = r.len();
            let repeated = n > 0 && r[n - 1] == s[i];
            if repeated {
                assert(rv.contains(x)) by {
                    assert(rv[n - 1] == x);
                }
            } else {
                proof {
                    assert forall|a: int| 0 <= a < rv.len() implies text_le(rv[a], x) && rv[a]
                        != x by {
                        let before = sv.take(i as int);
                        assert(views(r@).contains(rv[a]));
                        assert(before.contains(rv[a]));
                        let k = choose|k: int| 0 <= k < before.len() && #[trigger] before[k] == rv[a];
                        assert(sv[k] == rv[a]);
                        let l = rv[rv.len() - 1];
                        assert(views(r@).contains(l));
                        assert(before.contains(l));
                        let m = choose|m: int| 0 <= m < before.len() && #[trigger] before[m] == l;
                        assert(sv[m] == l);
                        if rv[a] == x {
                            if a < rv.len() - 1 {
                                assert(text_le(rv[a], l));
                            }
                            lemma_text_le_antisymmetric(l, x);
                        }
                    }
                }
                r.push(s[i].clone());
                assert(views(r@) =~= rv.push(x));
                proof {
                    assert forall|y: Seq<char>| views(r@).contains(y) <==> (rv.contains(y) || y
                        == x) by {
                        if views(r@).contains(y) {
                            let k = choose|k: int| 0 <= k < views(r@).len() && views(r@)[k] == y;
                            if k < rv.len() {
                                assert(rv[k] == y);
                            }
                        }
                        if rv.contains(y) {
                            let k = choose|k: int| 0 <= k < rv.len() && rv[k] == y;
                            assert(views(r@)[k] == y);
                        }
                        if y == x {
                            assert(views(r@)[rv.len() as int] == y);
                        }
                    }
                }
            }
        }
        proof {
            assert forall|y: Seq<char>| #[trigger] views(r@).contains(y) <==> (sv.take(
                i + 1,
            ).contains(y) && y.len() == TRACK_ID_LEN) by {
                lemma_take_contains(sv, i as int, y);
                assert(rv.contains(y) <==> (sv.take(i as int).contains(y) && y.len()
                    == TRACK_ID_LEN));
            }
        }
        i = i + 1;
    }
    assert(sv.take(s.len() as int) =~= sv);
    if r.len() == 0 {
        assert forall|x: Seq<char>| #[trigger] views(found@).contains(x) implies x.len()
            != TRACK_ID_LEN by {
            if x.len() == TRACK_ID_LEN {
                assert(views(r@).contains(x));
            }
        }
        Err(ExtractError::NoTrackIds)
    } else {
        Ok(r)
    }
}

/// What an input format name reads from `content`: `csv`, `urls` or
/// `mixed`; no other name is a format.
pub open spec fn format_ids(content: Seq<char>, format: Seq<char>) -> Option<Seq<Seq<char>>> {
    if format == "csv"@ {
        Some(csv_ids(content))
    } else if format == "urls"@ {
        Some(url_ids(content))
    } else if format == "mixed"@ {
        Some(mixed_ids(content))
    } else {
        None
    }
}

/// Whether two texts are the same.
pub fn same_text(a: &str, b: &str) -> (r: bool)
    ensures
        r == (a@ == b@),
{
    let x = chars_of(a);
    let y = chars_of(b);
    if x.len() != y.len() {
        return false;
    }
    let mut i: usize = 0;
    while i < x.len()
        invariant
            i <= x.len() == y.len(),
            x@ == a@,
            y@ == b@,
            forall|k: int| 0 <= k < i ==> x@[k] == y@[k],
        decreases x.len() - i,
    {
        if x[i] != y[i] {
            return false;
        }
        i = i + 1;
    }
    assert(x@ =~= y@);
    true
}

/// The identifiers that `content`, read in `format` (`csv`, `urls` or
/// `mixed`), names: sorted, each once, each 22 characters long. Fails on any
/// other format, and where no identifier is found.
pub fn extract_track_ids(content: &str, format: &str) -> (r: Result<Vec<String>, ExtractError>)
    ensures
        match format_ids(content@, format@) {
            None => r == Err::<Vec<String>, ExtractError>(ExtractError::UnsupportedFormat),
            Some(found) => match r {
                Ok(v) => finished(found, views(v@)) && v@.len() > 0,
                Err(e) => e == ExtractError::NoTrackIds && found.len() == 0,
            },
        },
{
    proof {
        lemma_readings_find_track_ids(content@);
    }
    let found = if same_text(format, "csv") {
        extract_from_csv(content)
    } else if same_text(format, "urls") {
        extract_from_urls(content)
    } else if same_text(format, "mixed") {
        extract_mixed(content)
    } else {
        return Err(ExtractError::UnsupportedFormat);
    };
    let ghost fv = views(found@);
    let r = finish_ids(found);
    proof {
        if r is Err && fv.len() > 0 {
            assert(fv.contains(fv[0]));
        }
    }
    r
}

proof fn lemma_find_from_occurs(s: Seq<char>, pat: Seq<char>, i: int)
    ensures
        find_from(s, pat, i) matches Some(p) ==> occurs_at(s, pat, p),
    decreases s.len() + 1 - i,
{
    if !(i < 0 || i + pat.len() > s.len()) && !occurs_at(s, pat, i) {
        lemma_find_from_occurs(s, pat, i + 1);
    }
}

proof fn lemma_alnum_run(s: Seq<char>, i: int)
    requires
        0 <= i <= s.len(),
    ensures
        i <= alnum_run_end(s, i) <= s.len(),
        forall|k: int| i <= k < alnum_run_end(s, i) ==> is_alnum(#[trigger] s[k]),
    decreases s.len() - i,
{
    if i < s.len() && is_alnum(s[i]) {
        lemma_alnum_run(s, i + 1);
    }
}

/// What follows a marker, when found, is a track identifier.
proof fn lemma_id_after_is_track_id(s: Seq<char>, m: Seq<char>)
    ensures
        id_after(s, m) matches Some(id) ==> is_track_id(id),
{
    lemma_find_from_occurs(s, m, 0);
    if let Some(p) = find(s, m) {
        let start = p + m.len();
        lemma_alnum_run(s, start);
        let end = alnum_run_end(s, start);
        if end - start == TRACK_ID_LEN {
            let id = s.subrange(start, end);
            assert forall|k: int| 0 <= k < id.len() implies is_alnum(#[trigger] id[k]) by {
                assert(id[k] == s[start + k]);
            }
        }
    }
}

/// Whatever the extractor returns is a track identifier.
pub proof fn lemma_extract_id_is_track_id(text: Seq<char>)
    ensures
        extract_id(text) matches Some(id) ==> is_track_id(id),
{
    lemma_id_after_is_track_id(text, "track/"@);
    lemma_id_after_is_track_id(text, "track:"@);
}

/// Every element of `v` is a track identifier.
pub open spec fn all_track_ids(v: Seq<Seq<char>>) -> bool {
    forall|j: int| 0 <= j < v.len() ==> is_track_id(#[trigger] v[j])
}

proof fn lemma_collect_ids_track_ids(
    items: Seq<Seq<char>>,
    f: spec_fn(Seq<char>) -> Option<Seq<char>>,
)
    requires
        forall|x: Seq<char>| (#[trigger] f(x)) is Some ==> is_track_id(f(x)->0),
    ensures
        all_track_ids(collect_ids(items, f)),
    decreases items.len(),
{
    if items.len() > 0 {
        lemma_collect_ids_track_ids(items.drop_last(), f);
    }
}

proof fn lemma_csv_lines_track_ids(ls: Seq<Seq<char>>)
    ensures
        all_track_ids(csv_lines_ids(ls)),
    decreases ls.len(),
{
    if ls.len() > 0 {
        lemma_csv_lines_track_ids(ls.drop_last());
        assert forall|x: Seq<char>| (#[trigger] csv_field_id()(x)) is Some implies is_track_id(
            csv_field_id()(x)->0,
        ) by {
            lemma_extract_id_is_track_id(strip_quotes(trim(x)));
        }
        lemma_collect_ids_track_ids(split_on(ls.last(), ','), csv_field_id());
        let a = csv_lines_ids(ls.drop_last());
        let b = csv_line_ids(ls.last());
        assert forall|j: int| 0 <= j < (a + b).len() implies is_track_id(#[trigger] (a + b)[j]) by {
            if j >= a.len() {
                assert((a + b)[j] == b[j - a.len()]);
            }
        }
    }
}

/// Each of the three readings of a text finds track identifiers only.
pub proof fn lemma_readings_find_track_ids(content: Seq<char>)
    ensures
        all_track_ids(url_ids(content)),
        all_track_ids(csv_ids(content)),
        all_track_ids(plain_ids(content)),
        all_track_ids(mixed_ids(content)),
{
    assert forall|x: Seq<char>| (#[trigger] url_line_id()(x)) is Some implies is_track_id(
        url_line_id()(x)->0,
    ) by {
        lemma_extract_id_is_track_id(trim(x));
    }
    lemma_collect_ids_track_ids(lines(content), url_line_id());
    lemma_csv_lines_track_ids(lines(content));
    lemma_collect_ids_track_ids(lines(content), plain_line_id());
    let a = url_ids(content);
    let b = csv_ids(content);
    let c = plain_ids(content);
    assert forall|j: int| 0 <= j < (a + b + c).len() implies is_track_id(
        #[trigger] (a + b + c)[j],
    ) by {
        if j < a.len() {
            assert((a + b + c)[j] == a[j]);
        } else if j < a.len() + b.len() {
            assert((a + b + c)[j] == b[j - a.len()]);
        } else {
            assert((a + b + c)[j] == c[j - a.len() - b.len()]);
        }
    }
}

/// Mixed extraction loses nothing: every identifier that the URL, the CSV or
/// the plain reading of a text finds is in the final sorted list.
pub proof fn lemma_mixed_keeps_every_reading(content: Seq<char>, v: Seq<Seq<char>>)
    requires
        finished(mixed_ids(content), v),
    ensures
        forall|x: Seq<char>|
            url_ids(content).contains(x) || csv_ids(content).contains(x) || plain_ids(
                content,
            ).contains(x) ==> #[trigger] v.contains(x),
{
    lemma_readings_find_track_ids(content);
    let a = url_ids(content);
    let b = csv_ids(content);
    let c = plain_ids(content);
    let all = mixed_ids(content);
    assert forall|x: Seq<char>|
        a.contains(x) || b.contains(x) || c.contains(x) implies #[trigger] v.contains(x) by {
        if a.contains(x) {
            let k = choose|k: int| 0 <= k < a.len() && #[trigger] a[k] == x;
            assert(all[k] == x);
        } else if b.contains(x) {
            let k = choose|k: int| 0 <= k < b.len() && #[trigger] b[k] == x;
            assert(all[a.len() + k] == x);
        } else {
            let k = choose|k: int| 0 <= k < c.len() && #[trigger] c[k] == x;
            assert(all[a.len() + b.len() + k] == x);
        }
        assert(all.contains(x));
    }
}

} // verus!
