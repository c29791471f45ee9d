//! Image-to-text-art rendering: converts a decoded raster image into a grid
//! of terminal character cells and serializes that grid with ANSI true-color
//! escape sequences, plus the small data model (dates, anime records) that
//! the surrounding tooling stores.

pub mod anime;
pub mod date;
pub mod digits;
pub mod escape;
pub mod palette;
pub mod raster;
pub mod render;

pub use anime::Anime;
pub use anime::AnimeKind;
pub use anime::AnimeSeason;
pub use anime::AnimeStatus;
pub use anime::Database;
pub use anime::License;
pub use anime::Season;
pub use date::DateError;
pub use date::SimpleDate;
pub use palette::get_char;
pub use palette::luminance;
pub use render::ColorMode;
pub use render::Options;
pub use render::Pixel;
pub use render::TextImage;
