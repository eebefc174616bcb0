//! The environment store: one named collection of key/value substitution
//! data, lazily cached from a JSON document and parsed on demand.

use vstd::prelude::*;
use crate::json::{json_of, parse_json, JsonValue};
use crate::text::{derived_name, name_spec};

verus! {

/// One named collection of key/value substitution data. The raw document
/// text is absent until loaded; once present it is never replaced.
pub struct Env {
    /// The path of the document file; the store's identity.
    pub fpath: String,
    /// The cached raw text, absent until loaded.
    pub fstr: Option<String>,
}

/// What can go wrong with an environment document.
#[derive(Debug, PartialEq, Eq)]
pub enum EnvError {
    /// The file at the store's path could not be read.
    ReadError,
    /// The document text is not well-formed JSON; carries the syntax
    /// error's message.
    ParseError(String),
}

impl Env {
    /// A store for the document at `fpath`, not yet loaded.
    pub fn new(fpath: String) -> (r: Env)
        ensures
            r.fpath == fpath,
            r.fstr is None,
    {
        Env { fpath, fstr: None }
    }

    /// The store's logical name relative to the root directory `dir`.
    pub fn name(&self, dir: String) -> (r: String)
        ensures
            r@ == name_spec(self.fpath@, dir@),
    {
        derived_name(self.fpath.as_str(), dir.as_str())
    }

    /// Cache the text read from the store's file, handed in by the caller as
    /// `text` (`None` when the read failed). A store that already holds text
    /// keeps it untouched and reports no error, however often load is
    /// called.
    pub fn load(&mut self, text: Option<String>) -> (r: Result<(), EnvError>)
        ensures
            old(self).fstr is Some ==> *final(self) == *old(self) && r is Ok,
            old(self).fstr is None && text is Some ==> final(self).fpath == old(self).fpath
                && final(self).fstr == text && r is Ok,
            old(self).fstr is None && text is None ==> *final(self) == *old(self) && r == Err::<
                (),
                EnvError,
            >(EnvError::ReadError),
    {
        if self.fstr.is_none() {
            match text {
                Some(t) => {
                    self.fstr = Some(t);
                },
                None => {
                    return Err(EnvError::ReadError);
                },
            }
        }
        Ok(())
    }

    /// Parse the loaded document text as structured key/value data. The
    /// store must have been loaded first.
    pub fn json(&self) -> (r: Result<JsonValue, EnvError>)
        requires
            self.fstr is Some,
        ensures
            r matches Ok(v) ==> json_of(self.fstr->0@) == Some(v),
            r matches Err(e) ==> json_of(self.fstr->0@) is None && e is ParseError,
    {
        match parse_json(self.fstr.as_ref().unwrap().as_str()) {
            Ok(v) => Ok(v),
            Err(m) => Err(EnvError::ParseError(m)),
        }
    }
}

} // verus!
