//! The process configuration: where data lives, how the instance presents
//! itself, and where to reach the document database.
use vstd::prelude::*;

verus! {

/// The command-line configuration of one running instance.
pub struct Args {
    /// Data path
    pub data_path: String,
    /// Public URL
    pub pub_url: String,
    /// Public FQDN
    pub pub_fqdn: String,
    /// Database URL
    pub db_url: String,
    /// Database name
    pub db_name: String,
    /// Plugins directory
    pub plugin_dir: String,
    /// Google Calendar path
    pub gc_path: String,
    /// Python path
    pub py_path: String,
    /// Port number
    pub port: u16,
    /// First run
    pub first_run: bool,
}

impl Args {
    /// The stock configuration.
    pub fn new() -> (r: Args)
        ensures
            r.data_path@ == "sample-data"@,
            r.pub_url@ == "http://localhost:8081"@,
            r.pub_fqdn@ == "localhost"@,
            r.db_url@ == "mongodb://127.0.0.1:27017"@,
            r.db_name@ == "isabelle"@,
            r.plugin_dir@ == "."@,
            r.gc_path@ == Seq::<char>::empty(),
            r.py_path@ == Seq::<char>::empty(),
            r.port == 8090,
            !r.first_run,
    {
        Args {
            data_path: String::from_str("sample-data"),
            pub_url: String::from_str("http://localhost:8081"),
            pub_fqdn: String::from_str("localhost"),
            db_url: String::from_str("mongodb://127.0.0.1:27017"),
            db_name: String::from_str("isabelle"),
            plugin_dir: String::from_str("."),
            gc_path: String::new(),
            py_path: String::new(),
            port: 8090,
            first_run: false,
        }
    }
}

} // verus!
