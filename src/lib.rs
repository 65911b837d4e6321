//! Printable pages of scannable track codes, and the extraction of track
//! identifiers from free-form text.
pub mod extract;
pub mod loader;
pub mod page;
pub mod playlist;
pub mod text;

pub use extract::{extract_playlist_id, extract_track_id_from_text, extract_track_ids};
pub use loader::track_ids_from_text;
pub use page::{
    generate_css, generate_song_div, generate_wave_codes_page, generate_wave_codes_page_with_config,
    WaveCodeConfig,
};
