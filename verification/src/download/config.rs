use vstd::prelude::*;

verus! {

/// The configuration: the directory a download is written into.
///
/// The caller that loads it from disk is responsible for checking that the
/// directory exists at load time; the value itself only carries the path.
pub struct Config {
    /// The path where files should be saved.
    path: String,
}

impl View for Config {
    type V = Seq<char>;

    closed spec fn view(&self) -> Seq<char> {
        self.path@
    }
}

impl Config {
    /// Wraps a destination directory path as a configuration.
    pub fn new(path: String) -> (c: Config)
        ensures
            c@ == path@,
    {
        Config { path }
    }

    /// Returns the path specified in the configuration.
    pub fn path(&self) -> (r: &str)
        ensures
            r@ == self@,
    {
        self.path.as_str()
    }
}

} // verus!
