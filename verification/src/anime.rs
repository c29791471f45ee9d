//! The anime database records: plain data carried through the library.
//!
//! URLs are held as their text; fetching, JSON decoding and URL validation
//! happen outside the library, which only stores the decoded values.

use vstd::prelude::*;

use crate::date::SimpleDate;

verus! {

/// Broadcast format of a show.
#[derive(Debug, Clone, Copy, PartialEq, Eq, Structural)]
pub enum AnimeKind {
    Tv,
    Movie,
    Ova,
    Ona,
    Special,
    Unknown,
}

/// Airing status of a show.
#[derive(Debug, Clone, Copy, PartialEq, Eq, Structural)]
pub enum AnimeStatus {
    Finished,
    Ongoing,
    Upcoming,
    Unknown,
}

/// Season of the year a show aired in.
#[derive(Debug, Clone, Copy, PartialEq, Eq, Structural)]
pub enum Season {
    Spring,
    Summer,
    Fall,
    Winter,
    Undefined,
}

/// The license the database is published under.
#[derive(Debug, Clone, PartialEq, Eq)]
pub struct License {
    pub name: String,
    pub url: String,
}

/// When a show aired: a season and, when known, a year.
#[derive(Debug, Clone, Copy, PartialEq, Eq)]
pub struct AnimeSeason {
    pub season: Season,
    pub year: Option<u32>,
}

/// One show's record.
#[derive(Debug, Clone, PartialEq, Eq)]
pub struct Anime {
    pub sources: Vec<String>,
    pub title: String,
    pub kind: AnimeKind,
    pub episodes: u32,
    pub status: AnimeStatus,
    pub anime_season: AnimeSeason,
    pub picture: String,
    pub thumbnail: String,
    pub synonyms: Vec<String>,
    pub relations: Vec<String>,
    pub tags: Vec<String>,
}

/// The whole database: its license, origin, last update and records.
#[derive(Debug, Clone, PartialEq, Eq)]
pub struct Database {
    pub license: License,
    pub repository: String,
    pub last_update: SimpleDate,
    pub data: Vec<Anime>,
}

} // verus!
