//! The name service's configuration: server address, key store, name
//! database settings, and the lists driving domain registration.
//!
//! Reading and writing the configuration file is I/O and lives in the
//! shell; this module holds the data and its defaults.

use vstd::prelude::*;

use crate::text::{format_u64, spec_numeral};

verus! {

/// The whole configuration.
pub struct Config {
    pub config_path: String,
    pub server: Server,
    pub settings: Settings,
}

/// Where the service listens and keeps its keys.
pub struct Server {
    pub address: String,
    pub port: u64,
    pub mongo: Mongo,
    pub key_db: String,
}

/// How the name database is reached.
pub struct Mongo {
    pub connection: String,
    pub app_name: String,
    pub db_name: String,
}

/// The registration rules: accepted top-level names and refused words.
pub struct Settings {
    pub tld_list: Vec<String>,
    pub offensive_words: Vec<String>,
}

/// The default top-level names.
pub open spec fn spec_default_tlds() -> Seq<Seq<char>> {
    seq![
        "mf"@,
        "btw"@,
        "fr"@,
        "yap"@,
        "dev"@,
        "scam"@,
        "zip"@,
        "root"@,
        "web"@,
        "rizz"@,
        "habibi"@,
        "sigma"@,
        "now"@,
        "it"@,
        "soy"@,
        "lol"@,
        "uwu"@,
        "ohio"@,
        "cat"@,
    ]
}

/// The default refused words.
pub open spec fn spec_default_offensive() -> Seq<Seq<char>> {
    seq!["nigg"@, "sex"@, "porn"@, "igg"@]
}

impl Config {
    /// The built-in defaults, used until a configuration file is read.
    pub fn new() -> (r: Config)
        ensures
            r.config_path@ == "config.toml"@,
            r.server.address@ == "127.0.0.1"@,
            r.server.port == 8080,
            r.server.key_db@ == "domains"@,
            r.server.mongo.connection@ =~= Seq::<char>::empty(),
            r.server.mongo.app_name@ == "DomainApp"@,
            r.server.mongo.db_name@ == "mydb"@,
            r.settings.tld_list.deep_view() =~= spec_default_tlds(),
            r.settings.offensive_words.deep_view() =~= spec_default_offensive(),
    {
        let mut tld_list: Vec<String> = Vec::new();
        tld_list.push(String::from_str("mf"));
        tld_list.push(String::from_str("btw"));
        tld_list.push(String::from_str("fr"));
        tld_list.push(String::from_str("yap"));
        tld_list.push(String::from_str("dev"));
        tld_list.push(String::from_str("scam"));
        tld_list.push(String::from_str("zip"));
        tld_list.push(String::from_str("root"));
        tld_list.push(String::from_str("web"));
        tld_list.push(String::from_str("rizz"));
        tld_list.push(String::from_str("habibi"));
        tld_list.push(String::from_str("sigma"));
        tld_list.push(String::from_str("now"));
        tld_list.push(String::from_str("it"));
        tld_list.push(String::from_str("soy"));
        tld_list.push(String::from_str("lol"));
        tld_list.push(String::from_str("uwu"));
        tld_list.push(String::from_str("ohio"));
        tld_list.push(String::from_str("cat"));
        let mut offensive_words: Vec<String> = Vec::new();
        offensive_words.push(String::from_str("nigg"));
        offensive_words.push(String::from_str("sex"));
        offensive_words.push(String::from_str("porn"));
        offensive_words.push(String::from_str("igg"));
        proof {
            assert(tld_list.deep_view() =~= spec_default_tlds());
            assert(offensive_words.deep_view() =~= spec_default_offensive());
        }
        Config {
            config_path: String::from_str("config.toml"),
            server: Server {
                address: String::from_str("127.0.0.1"),
                port: 8080,
                key_db: String::from_str("domains"),
                mongo: Mongo {
                    connection: String::new(),
                    app_name: String::from_str("DomainApp"),
                    db_name: String::from_str("mydb"),
                },
            },
            settings: Settings { tld_list, offensive_words },
        }
    }

    /// The listening address, `host:port`.
    pub fn get_address(&self) -> (r: String)
        ensures
            r@ == self.server.address@ + ":"@ + spec_numeral(self.server.port as nat),
    {
        let mut r = self.server.address.clone();
        r.append(":");
        let port = format_u64(self.server.port);
        r.append(port.as_str());
        r
    }

    /// The accepted top-level names, borrowed.
    pub fn tld_list(&self) -> (r: Vec<&str>)
        ensures
            r@.len() == self.settings.tld_list.deep_view().len(),
            forall|i: int| 0 <= i < r@.len() ==> r@[i]@ == self.settings.tld_list.deep_view()[i],
    {
        borrow_all(&self.settings.tld_list)
    }

    /// The refused words, borrowed.
    pub fn offen_words(&self) -> (r: Vec<&str>)
        ensures
            r@.len() == self.settings.offensive_words.deep_view().len(),
            forall|i: int|
                0 <= i < r@.len() ==> r@[i]@ == self.settings.offensive_words.deep_view()[i],
    {
        borrow_all(&self.settings.offensive_words)
    }

    /// Points the configuration at another file.
    pub fn set_path(&mut self, config_path: &String)
        ensures
            final(self).config_path@ == config_path@,
            final(self).server == old(self).server,
            final(self).settings == old(self).settings,
    {
        self.config_path = config_path.clone();
    }
}

/// Borrows every string of a list.
fn borrow_all<'a>(v: &'a Vec<String>) -> (r: Vec<&'a str>)
    ensures
        r@.len() == v.deep_view().len(),
        forall|i: int| 0 <= i < r@.len() ==> r@[i]@ == v.deep_view()[i],
{
    let mut r: Vec<&str> = Vec::new();
    let mut i: usize = 0;
    while i < v.len()
        invariant
            i <= v.len(),
            r@.len() == i,
            forall|k: int| 0 <= k < i ==> r@[k]@ == v.deep_view()[k],
        decreases v.len() - i,
    {
        r.push(v[i].as_str());
        i = i + 1;
    }
    r
}

} // verus!
