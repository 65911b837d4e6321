use wave_code_generator::extract::{
    extract_from_csv, extract_from_urls, extract_mixed, extract_plain_ids, extract_playlist_id,
    extract_track_id_from_text, extract_track_ids, finish_ids, ExtractError, PlaylistUrlError,
};
use wave_code_generator::loader::track_ids_from_text;

const ID: &str = "69Kzq3FMkDwiSFBQzRckFD";

#[test]
fn identifier_from_url_uri_and_bare_text() {
    assert_eq!(
        extract_track_id_from_text("https://open.spotify.com/track/69Kzq3FMkDwiSFBQzRckFD"),
        Some(ID.to_string())
    );
    assert_eq!(
        extract_track_id_from_text("spotify:track:69Kzq3FMkDwiSFBQzRckFD"),
        Some(ID.to_string())
    );
    assert_eq!(extract_track_id_from_text("not-an-id"), None);
    assert_eq!(extract_track_id_from_text(ID), Some(ID.to_string()));
}

#[test]
fn identifier_ends_at_first_non_alphanumeric() {
    assert_eq!(
        extract_track_id_from_text(
            "https://open.spotify.com/track/69Kzq3FMkDwiSFBQzRckFD?si=1234"
        ),
        Some(ID.to_string())
    );
}

#[test]
fn identifier_of_wrong_length_after_marker_is_not_found() {
    assert_eq!(extract_track_id_from_text("track/69Kzq3FMkDwiSFBQzRckF"), None);
    assert_eq!(extract_track_id_from_text("track/69Kzq3FMkDwiSFBQzRckFDx"), None);
    assert_eq!(
        extract_track_id_from_text("track/short then track/69Kzq3FMkDwiSFBQzRckFD"),
        None
    );
}

#[test]
fn identifier_falls_back_from_slash_to_colon_marker() {
    assert_eq!(
        extract_track_id_from_text("track/bad spotify:track:69Kzq3FMkDwiSFBQzRckFD"),
        Some(ID.to_string())
    );
}

#[test]
fn bare_identifier_is_trimmed() {
    assert_eq!(
        extract_track_id_from_text("  69Kzq3FMkDwiSFBQzRckFD \t"),
        Some(ID.to_string())
    );
    assert_eq!(extract_track_id_from_text("69Kzq3FMkDwiSFBQzRck-D"), None);
    assert_eq!(extract_track_id_from_text(""), None);
}

#[test]
fn playlist_id_from_url() {
    assert_eq!(
        extract_playlist_id("https://open.spotify.com/playlist/37i9dQZF1DXcBWIGoYBM5M?si=abc"),
        Ok("37i9dQZF1DXcBWIGoYBM5M".to_string())
    );
    assert_eq!(
        extract_playlist_id("https://open.spotify.com/playlist/37i9dQZF1DXcBWIGoYBM5M"),
        Ok("37i9dQZF1DXcBWIGoYBM5M".to_string())
    );
}

#[test]
fn playlist_id_errors() {
    assert_eq!(
        extract_playlist_id("https://open.spotify.com/album/37i9dQZF1DXcBWIGoYBM5M"),
        Err(PlaylistUrlError::MissingMarker)
    );
    assert_eq!(
        extract_playlist_id("https://open.spotify.com/playlist/37i9dQ?si=abc"),
        Err(PlaylistUrlError::InvalidLength)
    );
}

#[test]
fn urls_one_per_line() {
    let content = "https://open.spotify.com/track/69Kzq3FMkDwiSFBQzRckFD\nnothing here\r\n  spotify:track:3wUMcPzXcmaeW8QxTdyXQO  \nhttps://open.spotify.com/track/69Kzq3FMkDwiSFBQzRckFD\n";
    assert_eq!(
        extract_from_urls(content),
        vec![
            ID.to_string(),
            "3wUMcPzXcmaeW8QxTdyXQO".to_string(),
            ID.to_string()
        ]
    );
    assert!(extract_from_urls("").is_empty());
}

#[test]
fn csv_fields_are_trimmed_and_unquoted() {
    let content = "name,link\nSong, \"https://open.spotify.com/track/69Kzq3FMkDwiSFBQzRckFD\" ,\"3wUMcPzXcmaeW8QxTdyXQO\"\r\n";
    assert_eq!(
        extract_from_csv(content),
        vec![ID.to_string(), "3wUMcPzXcmaeW8QxTdyXQO".to_string()]
    );
}

#[test]
fn plain_ids_need_the_whole_line() {
    let content = " 69Kzq3FMkDwiSFBQzRckFD \nspotify:track:3wUMcPzXcmaeW8QxTdyXQO\nabc\n";
    assert_eq!(extract_plain_ids(content), vec![ID.to_string()]);
}

#[test]
fn mixed_concatenates_the_three_readings() {
    let content = "69Kzq3FMkDwiSFBQzRckFD";
    assert_eq!(
        extract_mixed(content),
        vec![ID.to_string(), ID.to_string(), ID.to_string()]
    );
}

#[test]
fn mixed_extraction_finds_url_quoted_and_bare_ids() {
    let content = "https://open.spotify.com/track/69Kzq3FMkDwiSFBQzRckFD\n\"3wUMcPzXcmaeW8QxTdyXQO\"\n6LUGvXEAK8WxIBYK43uoTb\n";
    let ids = extract_track_ids(content, "mixed").unwrap();
    assert_eq!(
        ids,
        vec![
            "3wUMcPzXcmaeW8QxTdyXQO".to_string(),
            "69Kzq3FMkDwiSFBQzRckFD".to_string(),
            "6LUGvXEAK8WxIBYK43uoTb".to_string()
        ]
    );
}

#[test]
fn extraction_formats_and_errors() {
    assert_eq!(
        extract_track_ids("x", "xml"),
        Err(ExtractError::UnsupportedFormat)
    );
    assert_eq!(
        extract_track_ids("nothing", "urls"),
        Err(ExtractError::NoTrackIds)
    );
    assert_eq!(
        extract_track_ids("a,spotify:track:69Kzq3FMkDwiSFBQzRckFD", "csv"),
        Ok(vec![ID.to_string()])
    );
}

#[test]
fn finishing_sorts_dedups_and_filters() {
    let found = vec![
        "b".repeat(22),
        "short".to_string(),
        "a".repeat(22),
        "b".repeat(22),
        String::new(),
        "B".repeat(22),
    ];
    assert_eq!(
        finish_ids(found),
        Ok(vec!["B".repeat(22), "a".repeat(22), "b".repeat(22)])
    );
    assert_eq!(finish_ids(vec!["x".to_string()]), Err(ExtractError::NoTrackIds));
    assert_eq!(finish_ids(Vec::new()), Err(ExtractError::NoTrackIds));
}

#[test]
fn text_list_strips_blank_lines_and_whitespace() {
    assert_eq!(
        track_ids_from_text(" abc \n\nxyz "),
        vec!["abc".to_string(), "xyz".to_string()]
    );
    assert!(track_ids_from_text("\n \n\t\n").is_empty());
    assert_eq!(
        track_ids_from_text("one\r\ntwo\r\n"),
        vec!["one".to_string(), "two".to_string()]
    );
}
