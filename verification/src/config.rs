//! Process configuration values.
//!
//! The surrounding server reads a JSON configuration file and feeds
//! the values in; only the plain configuration record itself lives
//! here. `load` returns the baseline configuration the server starts
//! from when no setting overrides it.

use vstd::prelude::*;

verus! {

/// Settings of the running server process.
pub struct Config {
    pub site_domain: String,
    pub site_author: String,
    pub author_twitter: String,
    pub author_email: String,
    pub author_github_name: String,
    pub port: u32,
    pub host: String,
    pub db_file: String,
}

impl Config {
    /// The baseline configuration: local host, port 8080, a database
    /// file next to the binary, and empty site identity fields.
    pub fn load() -> (c: Config)
        ensures
            c.site_domain@ == Seq::<char>::empty(),
            c.site_author@ == Seq::<char>::empty(),
            c.author_twitter@ == Seq::<char>::empty(),
            c.author_email@ == Seq::<char>::empty(),
            c.author_github_name@ == Seq::<char>::empty(),
            c.port == 8080,
            c.host@ == "127.0.0.1"@,
            c.db_file@ == "./database.sqlite"@,
    {
        Config {
            site_domain: String::new(),
            site_author: String::new(),
            author_twitter: String::new(),
            author_email: String::new(),
            author_github_name: String::new(),
            port: 8080,
            host: String::from_str("127.0.0.1"),
            db_file: String::from_str("./database.sqlite"),
        }
    }
}

} // verus!
