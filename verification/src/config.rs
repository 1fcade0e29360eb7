//! The settings record and the in-memory state around it. The record holds
//! the one persisted credential; reading a saved text recovers the record or
//! falls back to the default when the text does not parse, and writing
//! produces the exact document form. File access itself lives outside the
//! core: these functions map between records and plain text.

use vstd::prelude::*;
use crate::config_text::{
    document_text, lemma_document_round_trip, parse_document, render_document, stored_key,
};

verus! {

/// Law: for any credential — empty and non-ASCII content included — saving a
/// record and loading the saved text back yields an equal record: the text
/// `to_document` writes is read by `from_document` to the same credential.
pub proof fn lemma_save_load_round_trip(key: Seq<char>)
    ensures
        stored_key(document_text(key)) == key,
{
    lemma_document_round_trip(key);
}

/// The persisted settings record: currently only the API credential.
pub struct AppConfig {
    pub api_key: String,
}

impl Default for AppConfig {
    /// The record used before anything was saved: an empty credential.
    fn default() -> (r: Self)
        ensures
            r.api_key@ == Seq::<char>::empty(),
    {
        AppConfig { api_key: String::new() }
    }
}

impl AppConfig {
    /// The document to persist for this record: exactly `document_text`.
    pub fn to_document(&self) -> (r: String)
        ensures
            r@ == document_text(self.api_key@),
    {
        render_document(self.api_key.as_str())
    }

    /// The record a saved text denotes. A text that parses yields its
    /// credential; any other content falls back to the default record —
    /// recovered locally, never an error.
    pub fn from_document(text: &str) -> (r: AppConfig)
        ensures
            r.api_key@ == stored_key(text@),
    {
        match parse_document(text) {
            Some(k) => AppConfig { api_key: k },
            None => AppConfig { api_key: String::new() },
        }
    }
}

/// The in-memory application state: the current settings record. The caller
/// that owns the settings file reads it once at startup and hands the text
/// in; afterwards it persists `save_text()` whenever the record changes.
pub struct AppState {
    pub config: AppConfig,
}

impl AppState {
    /// The state after loading: the parsed record when the settings file
    /// existed with its text, and the default record when it did not.
    pub fn from_saved(text: Option<&str>) -> (r: AppState)
        ensures
            (match text {
                Some(t) => r.config.api_key@ == stored_key(t@),
                None => r.config.api_key@ == Seq::<char>::empty(),
            }),
    {
        match text {
            Some(t) => AppState { config: AppConfig::from_document(t) },
            None => AppState { config: AppConfig { api_key: String::new() } },
        }
    }

    /// The document to persist for the current record.
    pub fn save_text(&self) -> (r: String)
        ensures
            r@ == document_text(self.config.api_key@),
    {
        self.config.to_document()
    }

    /// Replaces the credential in the in-memory record; the caller persists
    /// `save_text()` right after.
    pub fn update_api_key(&mut self, api_key: String)
        ensures
            final(self).config.api_key@ == api_key@,
    {
        self.config.api_key = api_key;
    }

    /// The current in-memory credential; no file is touched.
    pub fn get_api_key(&self) -> (r: &str)
        ensures
            r@ == self.config.api_key@,
    {
        self.config.api_key.as_str()
    }
}

} // verus!
