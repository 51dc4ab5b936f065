//! Repository descriptors: the catalogs that fonts are fetched from.
use vstd::prelude::*;
use vstd::string::*;

use crate::record::RepoFont;
use crate::text::{replace_all, replaced};

verus! {

/// A remote catalog: its name, the URL of its listing (which may hold an
/// `{API_KEY}` placeholder) and the key put in place of the placeholder.
pub struct Repository {
    pub name: String,
    pub url: String,
    pub key: Option<String>,
}

/// The repositories of a configuration file.
pub struct Repositories {
    pub repo: Vec<Repository>,
}

/// A catalog's listing, as fetched.
pub struct FontsList {
    pub kind: String,
    pub items: Vec<RepoFont>,
}

/// The repositories used when none are configured.
pub fn get_default_repos() -> (r: Vec<Repository>)
    ensures
        r@.len() == 1,
        r@[0].name@ == "Open Font Repository"@,
        r@[0].url@ == "https://raw.githubusercontent.com/GustavoPeredo/open-font-repository/main/fonts.json"@,
        r@[0].key is None,
{
    let mut r: Vec<Repository> = Vec::new();
    r.push(
        Repository {
            name: String::from_str("Open Font Repository"),
            url: String::from_str(
                "https://raw.githubusercontent.com/GustavoPeredo/open-font-repository/main/fonts.json",
            ),
            key: None,
        },
    );
    r
}

/// The listing URL of a repository: with a key, each `{API_KEY}` in `url` is
/// replaced by the key; without one, `url` as it is.
pub fn repo_url(url: &str, key: &Option<String>) -> (r: String)
    ensures
        r@ == match key {
            Some(k) => replaced(url@, "{API_KEY}"@, k@),
            None => url@,
        },
{
    match key {
        Some(k) => {
            proof {
                reveal_strlit("{API_KEY}");
            }
            replace_all(url, "{API_KEY}", k.as_str())
        },
        None => String::from_str(url),
    }
}

} // verus!
