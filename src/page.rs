//! The printable page: one scannable code image per track, laid out on a
//! CSS grid.
use crate::text::{decimal, decimal_string, occurs_at, views};
use vstd::prelude::*;

verus! {

/// The title of a page when none is given.
pub const DEFAULT_TITLE: &'static str = "Spotify Codes Printable Page";

/// The number of grid columns when none is given.
pub const DEFAULT_COLUMNS: u32 = 4;

/// The page background when none is given.
pub const DEFAULT_BACKGROUND: &'static str = "white";

/// The side of a code image, in pixels, when none is given.
pub const DEFAULT_IMAGE_SIZE: u32 = 640;

/// The alternative text of a code image when none is given.
pub const DEFAULT_ALT: &'static str = "Spotify Code";

/// Where the code image service is reached; the image size follows.
pub const CODE_URL_BASE: &'static str = "https://scannables.scdn.co/uri/plain/png/000000/white/";

/// Between the image size and the track identifier in an image URL.
pub const TRACK_URI_PREFIX: &'static str = "/spotify:track:";

/// A code block up to its image URL.
pub const SONG_OPEN: &'static str = "    <div class=\"song\">\n        <img src=\"";

/// A code block between its image URL and its alternative text.
pub const SONG_ALT: &'static str = "\" alt=\"";

/// A code block after its alternative text.
pub const SONG_CLOSE: &'static str = "\">\n    </div>";

/// What stands between two code blocks.
pub const SONG_SEPARATOR: &'static str = "\n";

/// The grid columns up to their count.
pub const GRID_REPEAT: &'static str = "repeat(";

/// The grid columns after their count.
pub const GRID_FRACTION: &'static str = ", 1fr)";

/// The style sheet up to the page background colour.
pub const CSS_BODY_START: &'static str = r#"        body {
            font-family: Arial, sans-serif;
            margin: 10px;
            padding: 0;
            background-color: "#;

/// The style sheet between the background colour and the grid columns.
pub const CSS_GRID_START: &'static str = r#";
            display: grid;
            grid-template-columns: "#;

/// The style sheet after the grid columns: cells, images and print rules.
pub const CSS_REST: &'static str = r#";
            column-gap: 1px;
            row-gap: 1px;
        }
        .song {
            margin: 0;
            padding: 0;
            box-shadow: none;
            border-radius: 0;
            text-align: center;
            page-break-inside: avoid;
        }
        img {
            max-width: 100%;
            height: auto;
            border: none;
            border-radius: 0;
            display: block;
        }
        @media print {
            body { padding: 0; margin: 0; background: white; }
            .song { margin: 0; box-shadow: none; border: none; }
            @page {
                margin: 10px;
            }
        }"#;

/// The document up to its title.
pub const PAGE_HEAD: &'static str = r#"<!DOCTYPE html>
<html lang="en">
<head>
    <meta charset="UTF-8">
    <meta name="viewport" content="width=device-width, initial-scale=1.0">
    <title>"#;

/// The document between its title and its style sheet.
pub const PAGE_STYLE: &'static str = r#"</title>
    <style>
"#;

/// The document between its style sheet and its codes.
pub const PAGE_BODY: &'static str = r#"
    </style>
</head>
<body>
"#;

/// The document after its codes.
pub const PAGE_END: &'static str = r#"
</body>
</html>"#;

/// How a page looks.
#[derive(Debug, Clone)]
pub struct WaveCodeConfig {
    /// Page title.
    pub title: String,
    /// Number of grid columns.
    pub columns: u32,
    /// Page background, as a CSS colour.
    pub background_color: String,
    /// Side of each code image, in pixels.
    pub image_size: u32,
}

/// What a page configuration says, as mathematical values.
pub struct PageLook {
    pub title: Seq<char>,
    pub columns: nat,
    pub background: Seq<char>,
    pub image_size: nat,
}

impl View for WaveCodeConfig {
    type V = PageLook;

    open spec fn view(&self) -> PageLook {
        PageLook {
            title: self.title@,
            columns: self.columns as nat,
            background: self.background_color@,
            image_size: self.image_size as nat,
        }
    }
}

/// The default look, with the given title.
pub open spec fn default_look(title: Seq<char>) -> PageLook {
    PageLook {
        title,
        columns: DEFAULT_COLUMNS as nat,
        background: DEFAULT_BACKGROUND@,
        image_size: DEFAULT_IMAGE_SIZE as nat,
    }
}

impl Default for WaveCodeConfig {
    fn default() -> (r: Self)
        ensures
            r@ == default_look(DEFAULT_TITLE@),
    {
        WaveCodeConfig {
            title: String::from_str(DEFAULT_TITLE),
            columns: DEFAULT_COLUMNS,
            background_color: String::from_str(DEFAULT_BACKGROUND),
            image_size: DEFAULT_IMAGE_SIZE,
        }
    }
}

/// The URL of the code image of track `id` at `size` pixels.
pub open spec fn code_url(size: nat, id: Seq<char>) -> Seq<char> {
    CODE_URL_BASE@ + decimal(size) + TRACK_URI_PREFIX@ + id
}

/// The block that shows the code of track `id`.
pub open spec fn song_div(id: Seq<char>, alt: Seq<char>, size: nat) -> Seq<char> {
    SONG_OPEN@ + code_url(size, id) + SONG_ALT@ + alt + SONG_CLOSE@
}

/// The code blocks of `ids`, in order, one separator between two blocks.
pub open spec fn songs(ids: Seq<Seq<char>>, size: nat) -> Seq<char>
    decreases ids.len(),
{
    if ids.len() == 0 {
        Seq::empty()
    } else if ids.len() == 1 {
        song_div(ids[0], DEFAULT_ALT@, size)
    } else {
        songs(ids.drop_last(), size) + SONG_SEPARATOR@ + song_div(ids.last(), DEFAULT_ALT@, size)
    }
}

/// The grid's column template: `columns` columns of equal width.
pub open spec fn grid_columns(columns: nat) -> Seq<char> {
    GRID_REPEAT@ + decimal(columns) + GRID_FRACTION@
}

/// The style sheet of a page.
pub open spec fn css(background: Seq<char>, columns: nat) -> Seq<char> {
    CSS_BODY_START@ + background + CSS_GRID_START@ + grid_columns(columns) + CSS_REST@
}

/// The document up to its code blocks.
pub open spec fn page_start(c: PageLook) -> Seq<char> {
    PAGE_HEAD@ + c.title + PAGE_STYLE@ + css(c.background, c.columns) + PAGE_BODY@
}

/// The page that shows the codes of `ids` as `c` says.
pub open spec fn page(ids: Seq<Seq<char>>, c: PageLook) -> Seq<char> {
    page_start(c) + songs(ids, c.image_size) + PAGE_END@
}

/// The block that shows the code of one track: its image, at `image_size`
/// pixels (640 when not given), and its alternative text ("Spotify Code" when
/// not given).
pub fn generate_song_div(track_id: &str, alt_text: Option<&str>, image_size: Option<u32>) -> (r:
    String)
    ensures
        r@ == song_div(
            track_id@,
            match alt_text {
                Some(a) => a@,
                None => DEFAULT_ALT@,
            },
            match image_size {
                Some(n) => n as nat,
                None => DEFAULT_IMAGE_SIZE as nat,
            },
        ),
{
    let alt = match alt_text {
        Some(a) => a,
        None => DEFAULT_ALT,
    };
    let size = match image_size {
        Some(n) => n,
        None => DEFAULT_IMAGE_SIZE,
    };
    let mut r = String::from_str(SONG_OPEN);
    r.append(CODE_URL_BASE);
    let digits = decimal_string(size);
    r.append(digits.as_str());
    r.append(TRACK_URI_PREFIX);
    r.append(track_id);
    r.append(SONG_ALT);
    r.append(alt);
    r.append(SONG_CLOSE);
    assert(r@ =~= song_div(track_id@, alt@, size as nat));
    r
}

/// The style sheet of a page: a grid of `config.columns` equal columns with
/// one-pixel gaps on `config.background_color`, images scaled to their cell,
/// and print rules without margins on a white background.
pub fn generate_css(config: &WaveCodeConfig) -> (r: String)
    ensures
        r@ == css(config.background_color@, config.columns as nat),
{
    let mut r = String::from_str(CSS_BODY_START);
    r.append(config.background_color.as_str());
    r.append(CSS_GRID_START);
    r.append(GRID_REPEAT);
    let digits = decimal_string(config.columns);
    r.append(digits.as_str());
    r.append(GRID_FRACTION);
    r.append(CSS_REST);
    assert(r@ =~= css(config.background_color@, config.columns as nat));
    r
}

/// The page that shows the codes of `track_ids`, in order, as `config` says.
pub fn generate_wave_codes_page_with_config(track_ids: &[String], config: &WaveCodeConfig) -> (r:
    String)
    ensures
        r@ == page(views(track_ids@), config@),
{
    let ghost ids = views(track_ids@);
    let mut blocks = String::new();
    for i in 0..track_ids.len()
        invariant
            ids == views(track_ids@),
            blocks@ == songs(ids.take(i as int), config.image_size as nat),
    {
        let ghost before = blocks@;
        assert(ids.take(i + 1).drop_last() =~= ids.take(i as int));
        assert(ids.take(i + 1).last() == track_ids@[i as int]@);
        if i > 0 {
            blocks.append(SONG_SEPARATOR);
        }
        let block = generate_song_div(track_ids[i].as_str(), None, Some(config.image_size));
        blocks.append(block.as_str());
        if i == 0 {
            assert(blocks@ =~= songs(ids.take(1), config.image_size as nat));
        } else {
            assert(blocks@ =~= before + SONG_SEPARATOR@ + block@);
        }
    }
    assert(ids.take(track_ids.len() as int) =~= ids);
    let style = generate_css(config);
    let mut r = String::from_str(PAGE_HEAD);
    r.append(config.title.as_str());
    r.append(PAGE_STYLE);
    r.append(style.as_str());
    r.append(PAGE_BODY);
    r.append(blocks.as_str());
    r.append(PAGE_END);
    assert(r@ =~= page(ids, config@));
    r
}

/// The page that shows the codes of `track_ids` with the default look and
/// `title` (the default title when not given).
pub fn generate_wave_codes_page(track_ids: &[String], title: Option<&str>) -> (r: String)
    ensures
        r@ == page(
            views(track_ids@),
            default_look(
                match title {
                    Some(t) => t@,
                    None => DEFAULT_TITLE@,
                },
            ),
        ),
{
    let config = WaveCodeConfig {
        title: String::from_str(
            match title {
                Some(t) => t,
                None => DEFAULT_TITLE,
            },
        ),
        columns: DEFAULT_COLUMNS,
        background_color: String::from_str(DEFAULT_BACKGROUND),
        image_size: DEFAULT_IMAGE_SIZE,
    };
    generate_wave_codes_page_with_config(track_ids, &config)
}

/// Where the image URL of the `k`-th track starts among the code blocks of
/// `ids`.
pub open spec fn url_offset(ids: Seq<Seq<char>>, size: nat, k: int) -> int {
    songs(ids.take(k + 1), size).len() - song_div(ids[k], DEFAULT_ALT@, size).len()
        + SONG_OPEN@.len()
}

/// The blocks of the first `j` tracks begin the blocks of all of them.
proof fn lemma_songs_prefix(ids: Seq<Seq<char>>, size: nat, j: int)
    requires
        1 <= j <= ids.len(),
    ensures
        songs(ids.take(j), size).len() <= songs(ids, size).len(),
        songs(ids, size).subrange(0, songs(ids.take(j), size).len() as int) == songs(
            ids.take(j),
            size,
        ),
    decreases ids.len(),
{
    if j == ids.len() {
        assert(ids.take(j) =~= ids);
        assert(songs(ids, size).subrange(0, songs(ids, size).len() as int) =~= songs(ids, size));
    } else {
        let d = ids.drop_last();
        assert(d.take(j) =~= ids.take(j));
        lemma_songs_prefix(d, size, j);
        let a = songs(d, size);
        let b = SONG_SEPARATOR@ + song_div(ids.last(), DEFAULT_ALT@, size);
        assert(songs(ids, size) =~= a + b);
        assert((a + b).subrange(0, songs(ids.take(j), size).len() as int) =~= a.subrange(
            0,
            songs(ids.take(j), size).len() as int,
        ));
    }
}

/// The blocks of the first `k + 1` tracks end with the block of track `k`.
proof fn lemma_songs_last_block(ids: Seq<Seq<char>>, size: nat, k: int)
    requires
        0 <= k < ids.len(),
    ensures
        ({
            let s = songs(ids.take(k + 1), size);
            let d = song_div(ids[k], DEFAULT_ALT@, size);
            &&& d.len() <= s.len()
            &&& s.subrange(s.len() - d.len(), s.len() as int) == d
        }),
        k > 0 ==> songs(ids.take(k + 1), size).len() == songs(ids.take(k), size).len()
            + SONG_SEPARATOR@.len() + song_div(ids[k], DEFAULT_ALT@, size).len(),
{
    let t = ids.take(k + 1);
    let s = songs(t, size);
    let d = song_div(ids[k], DEFAULT_ALT@, size);
    assert(t.last() == ids[k]);
    if k == 0 {
        assert(s.subrange(0, s.len() as int) =~= s);
    } else {
        assert(t.drop_last() =~= ids.take(k));
        let a = songs(ids.take(k), size) + SONG_SEPARATOR@;
        assert(s =~= a + d);
        assert((a + d).subrange(a.len() as int, (a + d).len() as int) =~= d);
    }
}

/// Rendering is deterministic: the same identifiers and the same look give
/// the same document, character for character.
pub proof fn lemma_page_deterministic(
    ids1: Seq<Seq<char>>,
    ids2: Seq<Seq<char>>,
    c1: PageLook,
    c2: PageLook,
)
    requires
        ids1 == ids2,
        c1 == c2,
    ensures
        page(ids1, c1) == page(ids2, c2),
{
}

/// The page shows the code of every track, in the order of the tracks: the
/// image URL of track `k`, which holds its image size and
/// `spotify:track:<id>` verbatim, stands in the page at an offset that grows
/// with `k`.
pub proof fn lemma_page_shows_every_track(ids: Seq<Seq<char>>, c: PageLook)
    ensures
        forall|k: int|
            0 <= k < ids.len() ==> occurs_at(
                #[trigger] page(ids, c),
                code_url(c.image_size, ids[k]),
                page_start(c).len() + url_offset(ids, c.image_size, k),
            ),
        forall|k: int|
            0 <= k && k + 1 < ids.len() ==> #[trigger] url_offset(ids, c.image_size, k)
                < url_offset(ids, c.image_size, k + 1),
{
    let size = c.image_size;
    let p = page(ids, c);
    let st = page_start(c);
    assert forall|k: int| 0 <= k < ids.len() implies occurs_at(
        page(ids, c),
        code_url(size, ids[k]),
        st.len() + url_offset(ids, size, k),
    ) by {
        lemma_songs_prefix(ids, size, k + 1);
        lemma_songs_last_block(ids, size, k);
        let all = songs(ids, size);
        let s = songs(ids.take(k + 1), size);
        let d = song_div(ids[k], DEFAULT_ALT@, size);
        let u = code_url(size, ids[k]);
        let o = s.len() - d.len();
        let q = url_offset(ids, size, k);
        assert(d.subrange(SONG_OPEN@.len() as int, (SONG_OPEN@.len() + u.len()) as int) =~= u);
        assert(all.subrange(o, o + d.len()) =~= s.subrange(o, s.len() as int));
        assert(all.subrange(q, q + u.len()) =~= d.subrange(
            SONG_OPEN@.len() as int,
            (SONG_OPEN@.len() + u.len()) as int,
        ));
        assert(p =~= st + all + PAGE_END@);
        assert(p.subrange(st.len() + q, st.len() + q + u.len()) =~= all.subrange(q, q + u.len()));
    }
    assert forall|k: int| 0 <= k && k + 1 < ids.len() implies #[trigger] url_offset(ids, size, k)
        < url_offset(ids, size, k + 1) by {
        reveal_strlit("\n");
        lemma_songs_last_block(ids, size, k);
        lemma_songs_last_block(ids, size, k + 1);
    }
}

/// The grid has exactly as many columns as the look asks for: the column
/// template `repeat(<columns>, 1fr)` stands in the page.
pub proof fn lemma_page_grid_columns(ids: Seq<Seq<char>>, c: PageLook)
    ensures
        exists|i: int| occurs_at(page(ids, c), grid_columns(c.columns), i),
{
    let g = grid_columns(c.columns);
    let a = PAGE_HEAD@ + c.title + PAGE_STYLE@ + CSS_BODY_START@ + c.background + CSS_GRID_START@;
    let b = CSS_REST@ + PAGE_BODY@ + songs(ids, c.image_size) + PAGE_END@;
    assert(page(ids, c) =~= a + g + b);
    assert((a + g + b).subrange(a.len() as int, (a.len() + g.len()) as int) =~= g);
    assert(occurs_at(page(ids, c), g, a.len() as int));
}

} // verus!
