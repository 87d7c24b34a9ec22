//! The settings of the program.

use vstd::prelude::*;

use crate::paths;
use crate::paths::join_path;

verus! {

/// The settings.
#[derive(Debug)]
pub struct Settings {
    pub download_dir: String,
    pub max_concurrent_downloads: usize,
    pub per_download_concurrency: usize,
    /// The font of the user interface.
    pub font: String,
    /// The language of the user interface.
    pub language: String,
}

/// The font where none is set.
pub fn default_font() -> (r: String)
    ensures
        r@ == "system"@,
{
    "system".to_string()
}

/// The language where none is set.
pub fn default_language() -> (r: String)
    ensures
        r@ == "en"@,
{
    "en".to_string()
}

impl Settings {
    /// The settings where none were made.
    pub fn defaults(data_dir: &str) -> (r: Self)
        ensures
            r.download_dir@ == paths::join(data_dir@, "downloads"@),
            r.max_concurrent_downloads == 2,
            r.per_download_concurrency == 8,
            r.font@ == "system"@,
            r.language@ == "en"@,
    {
        Settings {
            download_dir: join_path(data_dir, "downloads"),
            max_concurrent_downloads: 2,
            per_download_concurrency: 8,
            font: default_font(),
            language: default_language(),
        }
    }
}

/// Where the settings are stored.
pub fn default_settings_path(data_dir: &str) -> (r: String)
    ensures
        r@ == paths::join(data_dir@, "settings.json"@),
{
    join_path(data_dir, "settings.json")
}

} // verus!
