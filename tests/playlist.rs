use wave_code_generator::playlist::{
    basic_auth_header, basic_auth_value, bearer_auth_value, first_tracks_url, TrackFetch,
};

#[test]
fn basic_header_encodes_credentials() {
    assert_eq!(basic_auth_header("id", "secret"), "Basic aWQ6c2VjcmV0");
    assert_eq!(basic_auth_header("", ""), "Basic Og==");
    assert_eq!(basic_auth_value("abc"), "Basic abc");
}

#[test]
fn bearer_header() {
    assert_eq!(bearer_auth_value("tok"), "Bearer tok");
}

#[test]
fn first_page_address() {
    assert_eq!(
        first_tracks_url("37i9dQZF1DXcBWIGoYBM5M"),
        "https://api.spotify.com/v1/playlists/37i9dQZF1DXcBWIGoYBM5M/tracks?fields=items(track(id,name,artists(name))),next&limit=100"
    );
}

#[test]
fn fetch_follows_pages_and_skips_missing_tracks() {
    let mut fetch = TrackFetch::new("37i9dQZF1DXcBWIGoYBM5M");
    assert_eq!(
        fetch.next_request(),
        Some(first_tracks_url("37i9dQZF1DXcBWIGoYBM5M"))
    );
    let page1 = vec![Some(Some("a".to_string())), None, Some(None), Some(Some("b".to_string()))];
    fetch.absorb_page(&page1, Some("https://next/2".to_string()));
    assert_eq!(fetch.next_request(), Some("https://next/2".to_string()));
    let page2 = vec![Some(Some("c".to_string()))];
    fetch.absorb_page(&page2, None);
    assert_eq!(fetch.next_request(), None);
    assert_eq!(
        fetch.into_track_ids(),
        vec!["a".to_string(), "b".to_string(), "c".to_string()]
    );
}
