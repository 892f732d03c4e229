//! The persisted save record and the fallbacks applied when loading it.

use vstd::prelude::*;

use crate::decimal::{parse_u32, spec_parse_u32, spec_u32_text, u32_text};

verus! {

/// What is kept between runs: the best score reached so far.
#[derive(Debug, Clone, Copy, PartialEq, Eq, Structural)]
pub struct SaveData {
    pub high_score: u32,
}

impl Default for SaveData {
    /// A fresh record: no best score yet.
    fn default() -> (data: Self)
        ensures
            data.high_score == 0,
    {
        SaveData { high_score: 0 }
    }
}

/// The record a load yields from what the storage handed back: the stored
/// record when it could be read and decoded, else a fresh one.
pub open spec fn spec_restore(parsed: Option<SaveData>) -> SaveData {
    match parsed {
        Some(data) => data,
        None => SaveData { high_score: 0 },
    }
}

/// A record that was read and decoded is used as it is; when none could be
/// read the result is a fresh record with no best score.
pub proof fn lemma_restore_outcome(data: SaveData)
    ensures
        spec_restore(Some(data)) == data,
        spec_restore(None).high_score == 0,
{
}

/// Decides the loaded record from the outcome of reading and decoding the
/// save file (`None` when the file was missing, unreadable or malformed).
pub fn restore(parsed: Option<SaveData>) -> (data: SaveData)
    ensures
        data == spec_restore(parsed),
{
    match parsed {
        Some(data) => data,
        None => SaveData::default(),
    }
}

/// The record a load yields from a text store holding the best score as a
/// decimal number: the number when the entry exists and parses as a `u32`,
/// else zero.
pub open spec fn spec_from_stored_text(stored: Option<Seq<char>>) -> SaveData {
    match stored {
        Some(text) => match spec_parse_u32(text) {
            Some(n) => SaveData { high_score: n },
            None => SaveData { high_score: 0 },
        },
        None => SaveData { high_score: 0 },
    }
}

/// Loading from a text store: an absent entry gives best 0, an entry that
/// parses as a `u32` gives that number, any other entry gives best 0.
pub proof fn lemma_from_stored_text_outcome(text: Seq<char>)
    ensures
        spec_from_stored_text(None).high_score == 0,
        spec_parse_u32(text) is Some ==> spec_from_stored_text(Some(text)).high_score
            == spec_parse_u32(text).unwrap(),
        spec_parse_u32(text) is None ==> spec_from_stored_text(Some(text)).high_score == 0,
{
}

/// Decides the loaded record from the text entry of a key-value store
/// (`None` when the store or the entry is absent).
pub fn from_stored_text(stored: Option<&str>) -> (data: SaveData)
    ensures
        data == spec_from_stored_text(match stored {
            Some(s) => Some(s@),
            None => None,
        }),
{
    match stored {
        Some(text) => match parse_u32(text) {
            Some(n) => SaveData { high_score: n },
            None => SaveData::default(),
        },
        None => SaveData::default(),
    }
}

/// The text entry written to a key-value store for a record: the best score
/// in decimal.
pub fn stored_text(data: &SaveData) -> (text: String)
    ensures
        text@ == spec_u32_text(data.high_score),
{
    u32_text(data.high_score)
}

/// What a text store gives back is what was written to it: loading the
/// entry written for a record yields that record.
pub proof fn lemma_stored_text_round_trip(data: SaveData)
    ensures
        spec_from_stored_text(Some(spec_u32_text(data.high_score))) == data,
{
    crate::decimal::lemma_parse_text(data.high_score);
}

} // verus!
