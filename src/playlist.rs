//! The decisions of fetching a playlist's tracks from the Web API: the
//! credentials header, the first page's address, and what each page adds.
//! The requests themselves are made by the caller.
use base64::Engine;
use crate::text::views;
use vstd::prelude::*;

verus! {

/// The first page of a playlist's tracks, up to the playlist identifier.
pub const TRACKS_URL_START: &'static str = "https://api.spotify.com/v1/playlists/";

/// The first page of a playlist's tracks, after the playlist identifier: the
/// fields asked for and the page size.
pub const TRACKS_URL_END: &'static str = "/tracks?fields=items(track(id,name,artists(name))),next&limit=100";

/// The scheme word of a client-credentials header.
pub const BASIC_PREFIX: &'static str = "Basic ";

/// The scheme word of an access-token header.
pub const BEARER_PREFIX: &'static str = "Bearer ";

/// Between the client id and the client secret, before encoding.
pub const CREDENTIALS_SEPARATOR: &'static str = ":";

/// The standard base64 encoding, with padding, of the UTF-8 bytes of `text`.
pub uninterp spec fn base64_standard(text: Seq<char>) -> Seq<char>;

/// Relies on `base64::Engine::encode` with the `STANDARD` engine: the padded
/// standard base64 encoding of the text's UTF-8 bytes, which depends on those
/// bytes alone. It panics only when the encoded length overflows `usize`,
/// which the bound on the length rules out.
#[verifier::external_body]
fn encode_base64(text: &str) -> (r: String)
    requires
        text@.len() <= usize::MAX / 8,
    ensures
        r@ == base64_standard(text@),
{
    base64::engine::general_purpose::STANDARD.encode(text)
}

/// The `Authorization` value for already encoded credentials.
pub fn basic_auth_value(encoded: &str) -> (r: String)
    ensures
        r@ == BASIC_PREFIX@ + encoded@,
{
    let mut r = String::from_str(BASIC_PREFIX);
    r.append(encoded);
    r
}

/// The `Authorization` value of a client-credentials request: `Basic ` and
/// the base64 encoding of `<client id>:<client secret>`.
pub fn basic_auth_header(client_id: &str, client_secret: &str) -> (r: String)
    requires
        client_id@.len() + client_secret@.len() < usize::MAX / 8,
    ensures
        r@ == BASIC_PREFIX@ + base64_standard(client_id@ + CREDENTIALS_SEPARATOR@ + client_secret@),
{
    proof {
        reveal_strlit(":");
    }
    let mut credentials = String::from_str(client_id);
    credentials.append(CREDENTIALS_SEPARATOR);
    credentials.append(client_secret);
    let encoded = encode_base64(credentials.as_str());
    basic_auth_value(encoded.as_str())
}

/// The `Authorization` value that presents an access token.
pub fn bearer_auth_value(access_token: &str) -> (r: String)
    ensures
        r@ == BEARER_PREFIX@ + access_token@,
{
    let mut r = String::from_str(BEARER_PREFIX);
    r.append(access_token);
    r
}

/// The address of the first page of a playlist's tracks.
pub open spec fn tracks_url(playlist_id: Seq<char>) -> Seq<char> {
    TRACKS_URL_START@ + playlist_id + TRACKS_URL_END@
}

/// The address of the first page of a playlist's tracks.
pub fn first_tracks_url(playlist_id: &str) -> (r: String)
    ensures
        r@ == tracks_url(playlist_id@),
{
    let mut r = String::from_str(TRACKS_URL_START);
    r.append(playlist_id);
    r.append(TRACKS_URL_END);
    r
}

/// The track identifiers of a page's items, in order: an item is `None` where
/// it holds no track, `Some(None)` where its track has no identifier.
pub open spec fn page_ids(items: Seq<Option<Option<String>>>) -> Seq<Seq<char>>
    decreases items.len(),
{
    if items.len() == 0 {
        Seq::empty()
    } else {
        let rest = page_ids(items.drop_last());
        match items.last() {
            Some(Some(id)) => rest.push(id@),
            _ => rest,
        }
    }
}

/// A fetch of a playlist's tracks, page after page: the identifiers found so
/// far, in the order the pages give them, and the page to ask for next.
pub struct TrackFetch {
    ids: Vec<String>,
    next_url: Option<String>,
}

/// What a fetch has reached, as mathematical values.
pub struct FetchView {
    pub ids: Seq<Seq<char>>,
    pub next_url: Option<Seq<char>>,
}

impl View for TrackFetch {
    type V = FetchView;

    closed spec fn view(&self) -> FetchView {
        FetchView {
            ids: views(self.ids@),
            next_url: match self.next_url {
                Some(u) => Some(u@),
                None => None,
            },
        }
    }
}

impl TrackFetch {
    /// A fetch of the tracks of `playlist_id` that has found nothing yet and
    /// asks for the first page.
    pub fn new(playlist_id: &str) -> (r: Self)
        ensures
            r@.ids == Seq::<Seq<char>>::empty(),
            r@.next_url == Some(tracks_url(playlist_id@)),
    {
        let r = TrackFetch { ids: Vec::new(), next_url: Some(first_tracks_url(playlist_id)) };
        assert(r@.ids =~= Seq::<Seq<char>>::empty());
        r
    }

    /// The page to ask for next, if any is left.
    pub fn next_request(&self) -> (r: Option<String>)
        ensures
            match r {
                Some(u) => self@.next_url == Some(u@),
                None => self@.next_url is None,
            },
    {
        match &self.next_url {
            Some(u) => Some(u.clone()),
            None => None,
        }
    }

    /// Takes in a page: its identifiers follow those found so far, and its
    /// link to the next page, if any, is the page to ask for next.
    pub fn absorb_page(&mut self, items: &Vec<Option<Option<String>>>, next: Option<String>)
        ensures
            final(self)@.ids == old(self)@.ids + page_ids(items@),
            final(self)@.next_url == match next {
                Some(u) => Some(u@),
                None => None::<Seq<char>>,
            },
    {
        let ghost start = views(self.ids@);
        for i in 0..items.len()
            invariant
                views(self.ids@) == start + page_ids(items@.take(i as int)),
        {
            let ghost before = views(self.ids@);
            assert(items@.take(i + 1).drop_last() =~= items@.take(i as int));
            assert(items@.take(i + 1).last() == items@[i as int]);
            match &items[i] {
                Some(Some(id)) => {
                    self.ids.push(id.clone());
                    assert(views(self.ids@) =~= before.push(id@));
                },
                _ => {},
            }
        }
        assert(items@.take(items.len() as int) =~= items@);
        self.next_url = next;
    }

    /// The identifiers found, in order.
    pub fn into_track_ids(self) -> (r: Vec<String>)
        ensures
            views(r@) == self@.ids,
    {
        self.ids
    }
}

} // verus!
