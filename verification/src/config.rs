//! The configuration: where the PNG files and the two stores are, where the
//! catalog comes from, and what to do with a history identity that the
//! catalog does not know. It is made once at startup and handed to whatever
//! needs it.

use crate::failure::Failure;
use crate::protocol::OnMissing;
use crate::text::join_path;
use crate::text::joined_path;
use vstd::prelude::*;

verus! {

/// The error type of `std::io`.
#[verifier::external_type_specification]
#[verifier::external_body]
pub struct ExIoError(std::io::Error);

/// The directory of the PNG files, before `~` is expanded.
pub const PNG_EMOJIS_PATH: &'static str = "~/assets/emojis";

/// The directory of the two stores, before `~` is expanded.
pub const DATA_FOLDER: &'static str = "~/.local/share/rustoji";

/// The file name of the history store.
pub const HISTORY_FILE: &'static str = "history.json";

/// The file name of the catalog store.
pub const CATALOG_FILE: &'static str = "emojis.json";

/// Where the catalog is fetched from when its store does not exist.
pub const UNICODE_EMOJIS_FILE_URL: &'static str =
    "https://raw.githubusercontent.com/Zai-Kun/rustoji/refs/heads/master/emojis.json";

/// `path` begins with `~/`.
pub open spec fn in_home(path: Seq<char>) -> bool {
    path.len() >= 2 && path[0] == '~' && path[1] == '/'
}

/// Trusted: `expanduser::expanduser`, on a path that begins with `~/`. It
/// puts the home directory of the current user in place of the `~`, and fails
/// where no home directory is known. The home directory comes from the
/// environment, so nothing is claimed of the result. A path that is not valid
/// Unicode comes back as `Ok(None)`.
#[verifier::external_body]
fn expand_user(path: &str) -> (r: Result<Option<String>, std::io::Error>)
    requires
        in_home(path@),
{
    match expanduser::expanduser(path) {
        Ok(expanded) => Ok(expanded.to_str().map(str::to_owned)),
        Err(e) => Err(e),
    }
}

/// The configuration of one run.
#[derive(Debug, Clone, PartialEq, Eq)]
pub struct Config {
    /// The directory of the PNG files.
    pub png_dir: String,
    /// The directory of the two stores.
    pub data_dir: String,
    /// The path of the history store.
    pub history_file: String,
    /// The path of the catalog store.
    pub catalog_file: String,
    /// Where the catalog is fetched from; empty if from nowhere.
    pub catalog_url: String,
    /// What to do with a history identity that the catalog does not know.
    pub on_missing: OnMissing,
}

impl Config {
    /// The configuration is the one for these two directories: the stores are
    /// the two files of the data directory, the catalog comes from its fixed
    /// address, and an identity that the catalog does not know is a failure.
    pub open spec fn is_for(&self, png_dir: Seq<char>, data_dir: Seq<char>) -> bool {
        &&& self.png_dir@ == png_dir
        &&& self.data_dir@ == data_dir
        &&& self.history_file@ == joined_path(data_dir, HISTORY_FILE@)
        &&& self.catalog_file@ == joined_path(data_dir, CATALOG_FILE@)
        &&& self.catalog_url@ == UNICODE_EMOJIS_FILE_URL@
        &&& self.on_missing == OnMissing::Fail
    }

    /// The configuration for the given directories, both already expanded.
    pub fn new(png_dir: String, data_dir: String) -> (r: Config)
        ensures
            r.is_for(png_dir@, data_dir@),
    {
        let history_file = join_path(data_dir.as_str(), HISTORY_FILE);
        let catalog_file = join_path(data_dir.as_str(), CATALOG_FILE);
        Config {
            png_dir,
            data_dir,
            history_file,
            catalog_file,
            catalog_url: UNICODE_EMOJIS_FILE_URL.to_owned(),
            on_missing: OnMissing::Fail,
        }
    }

    /// The configuration for the home directory of the current user. It
    /// fails where no home directory is known or where its path is not valid
    /// Unicode.
    pub fn locate() -> (r: Result<Config, Failure>)
        ensures
            match r {
                Ok(config) => config.is_for(config.png_dir@, config.data_dir@),
                Err(failure) => failure == Failure::HomeNotFound || failure
                    == Failure::PathNotUnicode,
            },
    {
        proof {
            reveal_strlit("~/assets/emojis");
            reveal_strlit("~/.local/share/rustoji");
        }
        let png_dir = match expand_user(PNG_EMOJIS_PATH) {
            Ok(Some(path)) => path,
            Ok(None) => {
                return Err(Failure::PathNotUnicode);
            },
            Err(_) => {
                return Err(Failure::HomeNotFound);
            },
        };
        let data_dir = match expand_user(DATA_FOLDER) {
            Ok(Some(path)) => path,
            Ok(None) => {
                return Err(Failure::PathNotUnicode);
            },
            Err(_) => {
                return Err(Failure::HomeNotFound);
            },
        };
        Ok(Config::new(png_dir, data_dir))
    }

    /// The arguments for the program that downloads the catalog to its store,
    /// or `None` where the configuration names no address to fetch from.
    pub fn fetch_arguments(&self) -> (r: Option<Vec<String>>)
        ensures
            match r {
                Some(args) => self.catalog_url@.len() > 0 && args.deep_view() == seq![
                    self.catalog_url@,
                    "-O"@,
                    self.catalog_file@,
                ],
                None => self.catalog_url@.len() == 0,
            },
    {
        if self.catalog_url.as_str().is_empty() {
            return None;
        }
        let mut args: Vec<String> = Vec::new();
        args.push(self.catalog_url.clone());
        args.push("-O".to_owned());
        args.push(self.catalog_file.clone());
        assert(args.deep_view() =~= seq![self.catalog_url@, "-O"@, self.catalog_file@]);
        Some(args)
    }
}

} // verus!
