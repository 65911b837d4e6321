use wave_code_generator::{
    generate_css, generate_song_div, generate_wave_codes_page,
    generate_wave_codes_page_with_config, WaveCodeConfig,
};

#[test]
fn test_generate_song_div() {
    let track_id = "69Kzq3FMkDwiSFBQzRckFD";
    let result = generate_song_div(track_id, None, None);

    assert!(result.contains("spotify:track:69Kzq3FMkDwiSFBQzRckFD"));
    assert!(result.contains(r#"alt="Spotify Code""#));
    assert!(result.contains("640"));
}

#[test]
fn test_generate_wave_codes_page() {
    let track_ids = vec![
        "69Kzq3FMkDwiSFBQzRckFD".to_string(),
        "3wUMcPzXcmaeW8QxTdyXQO".to_string(),
    ];

    let html = generate_wave_codes_page(&track_ids, Some("Test Page"));

    assert!(html.contains("<!DOCTYPE html>"));
    assert!(html.contains("Test Page"));
    assert!(html.contains("grid-template-columns: repeat(4, 1fr)"));
    assert!(html.contains("spotify:track:69Kzq3FMkDwiSFBQzRckFD"));
    assert!(html.contains("spotify:track:3wUMcPzXcmaeW8QxTdyXQO"));
}

#[test]
fn test_default_config() {
    let config = WaveCodeConfig::default();
    assert_eq!(config.title, "Spotify Codes Printable Page");
    assert_eq!(config.columns, 4);
    assert_eq!(config.background_color, "white");
    assert_eq!(config.image_size, 640);
}

#[test]
fn song_div_exact_text() {
    let div = generate_song_div("abc", Some("Cover"), Some(300));
    assert_eq!(
        div,
        "    <div class=\"song\">\n        <img src=\"https://scannables.scdn.co/uri/plain/png/000000/white/300/spotify:track:abc\" alt=\"Cover\">\n    </div>"
    );
}

#[test]
fn song_div_size_zero_passes_through() {
    let div = generate_song_div("abc", None, Some(0));
    assert!(div.contains("/white/0/spotify:track:abc"));
    let div = generate_song_div("abc", None, Some(4294967295));
    assert!(div.contains("/white/4294967295/spotify:track:abc"));
}

#[test]
fn css_uses_columns_and_background() {
    let config = WaveCodeConfig {
        title: "T".to_string(),
        columns: 6,
        background_color: "black".to_string(),
        image_size: 320,
    };
    let css = generate_css(&config);
    assert!(css.contains("grid-template-columns: repeat(6, 1fr);"));
    assert!(css.contains("background-color: black;"));
    assert!(css.contains("column-gap: 1px;"));
    assert!(css.contains("row-gap: 1px;"));
    assert!(css.contains("@media print"));
    assert!(css.contains("background: white;"));
}

#[test]
fn page_grid_has_configured_columns() {
    let config = WaveCodeConfig {
        title: "Grid".to_string(),
        columns: 6,
        background_color: "white".to_string(),
        image_size: 640,
    };
    let html = generate_wave_codes_page_with_config(&["a".to_string()], &config);
    assert!(html.contains("repeat(6, 1fr)"));
    assert!(!html.contains("repeat(4, 1fr)"));
    let config = WaveCodeConfig { columns: 12, ..config };
    let html = generate_wave_codes_page_with_config(&["a".to_string()], &config);
    assert!(html.contains("repeat(12, 1fr)"));
}

#[test]
fn page_is_deterministic() {
    let ids = vec!["69Kzq3FMkDwiSFBQzRckFD".to_string(), "x".to_string()];
    let config = WaveCodeConfig::default();
    let a = generate_wave_codes_page_with_config(&ids, &config);
    let b = generate_wave_codes_page_with_config(&ids, &config.clone());
    assert_eq!(a, b);
    assert_eq!(
        generate_wave_codes_page(&ids, Some("Same")),
        generate_wave_codes_page(&ids, Some("Same"))
    );
}

#[test]
fn page_has_one_url_per_track_in_order() {
    let ids = vec![
        "3wUMcPzXcmaeW8QxTdyXQO".to_string(),
        "69Kzq3FMkDwiSFBQzRckFD".to_string(),
        "3wUMcPzXcmaeW8QxTdyXQO".to_string(),
    ];
    let config = WaveCodeConfig { image_size: 512, ..WaveCodeConfig::default() };
    let html = generate_wave_codes_page_with_config(&ids, &config);
    let base = "https://scannables.scdn.co/uri/plain/png/000000/white/512/spotify:track:";
    assert_eq!(html.matches(base).count(), 3);
    let positions: Vec<usize> = html.match_indices(base).map(|(i, _)| i).collect();
    for (k, id) in ids.iter().enumerate() {
        let at = positions[k] + base.len();
        assert_eq!(&html[at..at + id.len()], id.as_str());
    }
}

#[test]
fn page_exact_for_empty_list() {
    let html = generate_wave_codes_page(&[], None);
    assert!(html.starts_with("<!DOCTYPE html>\n<html lang=\"en\">\n<head>\n"));
    assert!(html.contains("<title>Spotify Codes Printable Page</title>"));
    assert!(html.ends_with("\n    </style>\n</head>\n<body>\n\n</body>\n</html>"));
    assert_eq!(html.matches("<div class=\"song\">").count(), 0);
}

#[test]
fn page_blocks_separated_by_one_newline() {
    let ids = vec!["a".to_string(), "b".to_string()];
    let html = generate_wave_codes_page(&ids, Some("T"));
    let first = generate_song_div("a", None, Some(640));
    let second = generate_song_div("b", None, Some(640));
    let body = format!("<body>\n{}\n{}\n</body>\n</html>", first, second);
    assert!(html.ends_with(&body));
}
