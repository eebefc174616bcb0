//! The request template and its resolution engine: a single pass over the
//! raw text that replaces every `{{ key }}` placeholder with the scalar the
//! key names in the environment's data, or fails as a whole.

use vstd::prelude::*;
use crate::env::{Env, EnvError};
use crate::json::{is_scalar, json_of, lookup_path, scalar_text, JsonValue};
use crate::json::{lookup_in, scalar_check, append_scalar};
use crate::text::{find_pair, lemma_find_pair, trim, name_spec};
use crate::text::{chars_of, derived_name, find_pair_in, trim_range, string_range, append_range};

verus! {

/// The abstract outcome of a failed resolution.
pub enum ResolveErr {
    /// An opening `{{` at the given character position has no closing `}}`.
    Unterminated { at: int },
    /// A placeholder's key is absent from the environment data.
    Missing { key: Seq<char> },
    /// A placeholder's key names a value that is not a scalar.
    NonScalar { key: Seq<char> },
}

/// What can go wrong while loading or resolving a request template.
#[derive(Debug, PartialEq, Eq)]
pub enum RequestError {
    /// The template file could not be read.
    ReadError,
    /// An opening `{{` at the given character position has no closing `}}`.
    MalformedTemplate(usize),
    /// A placeholder's key is absent from the environment data; carries the
    /// key.
    MissingKey(String),
    /// A placeholder's key names a value that is not a scalar; carries the
    /// key.
    NonScalarKey(String),
    /// The environment document could not be loaded or parsed.
    EnvError(EnvError),
}

/// Single-pass placeholder substitution over `s`, from position `i` on.
/// Text outside delimiters is kept verbatim; each `{{ key }}` placeholder
/// is replaced by the textual form of the scalar that `key` names in
/// `data`. An unterminated `{{`, a key absent from `data`, or a key naming
/// a non-scalar fails the whole resolution. Substituted text is not
/// rescanned: resolution never expands a placeholder's replacement.
pub open spec fn resolve_from(s: Seq<char>, data: JsonValue, i: int) -> Result<
    Seq<char>,
    ResolveErr,
>
    decreases s.len() - i,
    via resolve_from_decreases
{
    match find_pair(s, '{', '{', i) {
        None => Ok(s.skip(i)),
        Some(j) => match find_pair(s, '}', '}', j + 2) {
            None => Err(ResolveErr::Unterminated { at: j }),
            Some(k) => {
                let key = trim(s.subrange(j + 2, k));
                match lookup_path(data, key) {
                    None => Err(ResolveErr::Missing { key }),
                    Some(v) => if is_scalar(v) {
                        match resolve_from(s, data, k + 2) {
                            Ok(rest) => Ok(s.subrange(i, j) + scalar_text(v) + rest),
                            Err(e) => Err(e),
                        }
                    } else {
                        Err(ResolveErr::NonScalar { key })
                    },
                }
            },
        },
    }
}

#[via_fn]
proof fn resolve_from_decreases(s: Seq<char>, data: JsonValue, i: int) {
    if 0 <= i {
        lemma_find_pair(s, '{', '{', i);
        match find_pair(s, '{', '{', i) {
            Some(j) => {
                lemma_find_pair(s, '}', '}', j + 2);
            },
            None => {},
        }
    }
}

/// The whole resolution of a template's text against a document.
pub open spec fn resolve_spec(s: Seq<char>, data: JsonValue) -> Result<Seq<char>, ResolveErr> {
    resolve_from(s, data, 0)
}

/// Does the executable error carry exactly the abstract failure `e`?
pub open spec fn err_reflects(re: RequestError, e: ResolveErr) -> bool {
    match e {
        ResolveErr::Unterminated { at } => re matches RequestError::MalformedTemplate(p) && p as int
            == at,
        ResolveErr::Missing { key } => re matches RequestError::MissingKey(k) && k@ == key,
        ResolveErr::NonScalar { key } => re matches RequestError::NonScalarKey(k) && k@ == key,
    }
}

/// Does the executable outcome carry exactly the abstract outcome `s`?
pub open spec fn reflects(r: Result<String, RequestError>, s: Result<Seq<char>, ResolveErr>) -> bool {
    match s {
        Ok(t) => r matches Ok(out) && out@ == t,
        Err(e) => r matches Err(re) && err_reflects(re, e),
    }
}

/// Resolve every placeholder in `text` against `data`, in one pass.
#[verifier::loop_isolation(false)]
pub fn resolve_with(text: &str, data: &JsonValue) -> (r: Result<String, RequestError>)
    ensures
        reflects(r, resolve_spec(text@, *data)),
{
    let v = chars_of(text);
    let n = v.len();
    let mut out = String::new();
    let mut i: usize = 0;
    loop
        invariant
            i <= n,
            match resolve_from(text@, *data, i as int) {
                Ok(rest) => resolve_spec(text@, *data) == Ok::<Seq<char>, ResolveErr>(out@ + rest),
                Err(e) => resolve_spec(text@, *data) == Err::<Seq<char>, ResolveErr>(e),
            },
        decreases n - i,
    {
        proof {
            lemma_find_pair(text@, '{', '{', i as int);
        }
        match find_pair_in(&v, '{', '{', i) {
            None => {
                append_range(&mut out, &v, i, n);
                proof {
                    assert(v@.subrange(i as int, n as int) =~= text@.skip(i as int));
                }
                return Ok(out);
            },
            Some(j) => {
                proof {
                    lemma_find_pair(text@, '}', '}', j + 2);
                }
                match find_pair_in(&v, '}', '}', j + 2) {
                    None => {
                        return Err(RequestError::MalformedTemplate(j));
                    },
                    Some(k) => {
                        let (ts, te) = trim_range(&v, j + 2, k);
                        let ghost key = trim(text@.subrange(j + 2, k as int));
                        proof {
                            assert(v@.subrange(ts as int, te as int) == key);
                        }
                        match lookup_in(data, &v, ts, te) {
                            None => {
                                let keystr = string_range(&v, ts, te);
                                return Err(RequestError::MissingKey(keystr));
                            },
                            Some(val) => {
                                if scalar_check(val) {
                                    let ghost out0 = out@;
                                    append_range(&mut out, &v, i, j);
                                    append_scalar(&mut out, val);
                                    proof {
                                        match resolve_from(text@, *data, k + 2 as int) {
                                            Ok(rest) => {
                                                assert(resolve_from(text@, *data, i as int)
                                                    == Ok::<Seq<char>, ResolveErr>(
                                                    text@.subrange(i as int, j as int)
                                                        + scalar_text(*val) + rest,
                                                ));
                                                assert(out0 + (text@.subrange(i as int, j as int)
                                                    + scalar_text(*val) + rest) =~= out@ + rest);
                                            },
                                            Err(e) => {
                                                assert(resolve_from(text@, *data, i as int)
                                                    == Err::<Seq<char>, ResolveErr>(e));
                                            },
                                        }
                                    }
                                    i = k + 2;
                                } else {
                                    let keystr = string_range(&v, ts, te);
                                    return Err(RequestError::NonScalarKey(keystr));
                                }
                            },
                        }
                    },
                }
            },
        }
    }
}

/// One request definition loaded from a text file: the raw unresolved text
/// and the resolution operation over it.
pub struct Request {
    /// The path of the template file; the template's identity.
    pub fpath: String,
    /// The cached raw text, absent until loaded.
    pub fstr: Option<String>,
}

impl Request {
    /// A template for the file at `fpath`, not yet loaded.
    pub fn new(fpath: String) -> (r: Request)
        ensures
            r.fpath == fpath,
            r.fstr is None,
    {
        Request { fpath, fstr: None }
    }

    /// The template's logical name relative to the root directory `dir`.
    pub fn name(&self, dir: String) -> (r: String)
        ensures
            r@ == name_spec(self.fpath@, dir@),
    {
        derived_name(self.fpath.as_str(), dir.as_str())
    }

    /// Cache the text read from the template's file, handed in by the
    /// caller as `text` (`None` when the read failed). A template that
    /// already holds text keeps it untouched and reports no error, however
    /// often load is called.
    pub fn load(&mut self, text: Option<String>) -> (r: Result<(), RequestError>)
        ensures
            old(self).fstr is Some ==> *final(self) == *old(self) && r is Ok,
            old(self).fstr is None && text is Some ==> final(self).fpath == old(self).fpath
                && final(self).fstr == text && r is Ok,
            old(self).fstr is None && text is None ==> *final(self) == *old(self) && r == Err::<
                (),
                RequestError,
            >(RequestError::ReadError),
    {
        if self.fstr.is_none() {
            match text {
                Some(t) => {
                    self.fstr = Some(t);
                },
                None => {
                    return Err(RequestError::ReadError);
                },
            }
        }
        Ok(())
    }

    /// Resolve the template against an optional environment. Without an
    /// environment the raw text is returned unchanged, placeholders and
    /// all. With one, the environment's loaded document is parsed and every
    /// placeholder substituted in a single pass. The template, and the
    /// environment if given, must have been loaded first.
    pub fn resolve(&self, env: Option<&Env>) -> (r: Result<String, RequestError>)
        requires
            self.fstr is Some,
            env matches Some(e) ==> e.fstr is Some,
        ensures
            match env {
                None => r matches Ok(s) && s@ == self.fstr->0@,
                Some(e) => match json_of(e.fstr->0@) {
                    Some(d) => reflects(r, resolve_spec(self.fstr->0@, d)),
                    None => r matches Err(re) && re matches RequestError::EnvError(pe)
                        && pe is ParseError,
                },
            },
    {
        match env {
            None => Ok(self.fstr.as_ref().unwrap().clone()),
            Some(e) => {
                match e.json() {
                    Ok(d) => resolve_with(self.fstr.as_ref().unwrap().as_str(), &d),
                    Err(err) => Err(RequestError::EnvError(err)),
                }
            },
        }
    }
}

} // verus!
