//! The catalog: partitions the files discovered under one root directory
//! into request templates and environment stores, offers name-based
//! lookup, and executes a request against an optional environment.

use vstd::prelude::*;
use crate::env::{Env, EnvError};
use crate::json::json_of;
use crate::request::{err_reflects, resolve_spec, Request, RequestError};
use crate::text::{chars_of, env_marker, matches_at, name_spec};

verus! {

/// What can go wrong at the catalog boundary.
#[derive(Debug, PartialEq, Eq)]
pub enum ReqqError {
    /// No request template carries the given name.
    RequestNotFound(String),
    /// No environment store carries the given name.
    EnvNotFound(String),
    /// Loading or resolving the request failed.
    RequestError(RequestError),
}

/// Does the path lie inside the reserved environments subdirectory of
/// `dir`?
pub open spec fn is_env_path(p: Seq<char>, dir: Seq<char>) -> bool {
    (dir + env_marker()).is_prefix_of(p)
}

/// The discovered paths that hold request templates: those outside the
/// environments subdirectory, in discovery order.
pub open spec fn req_paths(fpaths: Seq<String>, dir: Seq<char>) -> Seq<String> {
    fpaths.filter(|p: String| !is_env_path(p@, dir))
}

/// The discovered paths that hold environment documents, in discovery
/// order.
pub open spec fn env_paths(fpaths: Seq<String>, dir: Seq<char>) -> Seq<String> {
    fpaths.filter(|p: String| is_env_path(p@, dir))
}

/// The text a load call leaves cached: what was already held, else what
/// the caller handed in.
pub open spec fn effective(stored: Option<String>, given: Option<String>) -> Option<String> {
    if stored is Some {
        stored
    } else {
        given
    }
}

/// Duplicate an optional text, keeping its value.
fn clone_opt(s: &Option<String>) -> (r: Option<String>)
    ensures
        r == *s,
{
    match s {
        Some(t) => Some(t.clone()),
        None => None,
    }
}

/// The top level object: holds all discovered request templates and
/// environment stores for one root directory.
pub struct Reqq {
    /// The root directory the catalog was built for.
    pub dir: String,
    /// The request templates, in discovery order.
    pub reqs: Vec<Request>,
    /// The environment stores, in discovery order.
    pub envs: Vec<Env>,
}

impl Reqq {
    /// The derived name of the request template at position `i`.
    pub open spec fn req_name_at(self, i: int) -> Seq<char> {
        name_spec(self.reqs@[i].fpath@, self.dir@)
    }

    /// The derived name of the environment store at position `i`.
    pub open spec fn env_name_at(self, i: int) -> Seq<char> {
        name_spec(self.envs@[i].fpath@, self.dir@)
    }

    /// Is there a request template carrying `name`?
    pub open spec fn has_req(self, name: Seq<char>) -> bool {
        exists|i: int| 0 <= i < self.reqs@.len() && #[trigger] self.req_name_at(i) == name
    }

    /// Is there an environment store carrying `name`?
    pub open spec fn has_env(self, name: Seq<char>) -> bool {
        exists|i: int| 0 <= i < self.envs@.len() && #[trigger] self.env_name_at(i) == name
    }

    /// Does `name` first match the request template at position `i`?
    pub open spec fn req_found_at(self, name: Seq<char>, i: int) -> bool {
        0 <= i < self.reqs@.len() && self.req_name_at(i) == name && (forall|j: int|
            0 <= j < i ==> self.req_name_at(j) != name)
    }

    /// Does `name` first match the environment store at position `i`?
    pub open spec fn env_found_at(self, name: Seq<char>, i: int) -> bool {
        0 <= i < self.envs@.len() && self.env_name_at(i) == name && (forall|j: int|
            0 <= j < i ==> self.env_name_at(j) != name)
    }

    /// The position of the first request template carrying `name`.
    pub open spec fn first_req(self, name: Seq<char>) -> int {
        choose|i: int| self.req_found_at(name, i)
    }

    /// The position of the first environment store carrying `name`.
    pub open spec fn first_env(self, name: Seq<char>) -> int {
        choose|i: int| self.env_found_at(name, i)
    }

    /// Does the catalog hold exactly the partition of the discovered
    /// `fpaths` for the root `dir`: every path outside the environments
    /// subdirectory as an unloaded request template, every path inside it
    /// as an unloaded environment store, both in discovery order?
    pub open spec fn built_from(self, dir: String, fpaths: Seq<String>) -> bool {
        let rs = req_paths(fpaths, dir@);
        let es = env_paths(fpaths, dir@);
        &&& self.dir == dir
        &&& self.reqs@.len() == rs.len()
        &&& (forall|i: int|
            0 <= i < rs.len() ==> self.reqs@[i].fpath == rs[i] && self.reqs@[i].fstr is None)
        &&& self.envs@.len() == es.len()
        &&& (forall|i: int|
            0 <= i < es.len() ==> self.envs@[i].fpath == es[i] && self.envs@[i].fstr is None)
    }

    /// Build a catalog from a root directory and the files discovered
    /// under it.
    #[verifier::loop_isolation(false)]
    pub fn new(dir: String, fpaths: Vec<String>) -> (r: Result<Reqq, ReqqError>)
        ensures
            r matches Ok(q) && q.built_from(dir, fpaths@),
    {
        let mut pref = chars_of(dir.as_str());
        pref.push('/');
        pref.push('e');
        pref.push('n');
        pref.push('v');
        pref.push('s');
        pref.push('/');
        proof {
            assert(pref@ =~= dir@ + env_marker());
            assert(fpaths@.take(0) =~= Seq::<String>::empty());
            reveal(Seq::filter);
        }
        let n = fpaths.len();
        let mut reqs: Vec<Request> = Vec::new();
        let mut envs: Vec<Env> = Vec::new();
        let mut i: usize = 0;
        while i < n
            invariant
                i <= n,
                reqs@.len() == req_paths(fpaths@.take(i as int), dir@).len(),
                forall|k: int|
                    0 <= k < reqs@.len() ==> reqs@[k].fpath == req_paths(
                        fpaths@.take(i as int),
                        dir@,
                    )[k] && reqs@[k].fstr is None,
                envs@.len() == env_paths(fpaths@.take(i as int), dir@).len(),
                forall|k: int|
                    0 <= k < envs@.len() ==> envs@[k].fpath == env_paths(
                        fpaths@.take(i as int),
                        dir@,
                    )[k] && envs@[k].fstr is None,
            decreases n - i,
        {
            let p = &fpaths[i];
            let pv = chars_of(p.as_str());
            let inside = matches_at(&pv, 0, &pref);
            proof {
                assert(pv@.skip(0) =~= pv@);
                assert(inside == is_env_path(p@, dir@));
                reveal(Seq::filter);
                assert(fpaths@.take(i + 1).drop_last() =~= fpaths@.take(i as int));
                assert(fpaths@.take(i + 1).last() == fpaths@[i as int]);
            }
            if inside {
                envs.push(Env::new(p.clone()));
            } else {
                reqs.push(Request::new(p.clone()));
            }
            i = i + 1;
        }
        proof {
            assert(fpaths@.take(n as int) =~= fpaths@);
        }
        Ok(Reqq { dir, reqs, envs })
    }

    /// The derived names of all request templates, in discovery order.
    pub fn list_reqs(&self) -> (r: Vec<String>)
        ensures
            r@.len() == self.reqs@.len(),
            forall|i: int| 0 <= i < r@.len() ==> r@[i]@ == self.req_name_at(i),
    {
        let n = self.reqs.len();
        let mut out: Vec<String> = Vec::new();
        let mut i: usize = 0;
        while i < n
            invariant
                i <= n,
                n == self.reqs@.len(),
                out@.len() == i,
                forall|k: int| 0 <= k < i ==> out@[k]@ == self.req_name_at(k),
            decreases n - i,
        {
            out.push(self.reqs[i].name(self.dir.clone()));
            i = i + 1;
        }
        out
    }

    /// The derived names of all environment stores, in discovery order.
    pub fn list_envs(&self) -> (r: Vec<String>)
        ensures
            r@.len() == self.envs@.len(),
            forall|i: int| 0 <= i < r@.len() ==> r@[i]@ == self.env_name_at(i),
    {
        let n = self.envs.len();
        let mut out: Vec<String> = Vec::new();
        let mut i: usize = 0;
        while i < n
            invariant
                i <= n,
                n == self.envs@.len(),
                out@.len() == i,
                forall|k: int| 0 <= k < i ==> out@[k]@ == self.env_name_at(k),
            decreases n - i,
        {
            out.push(self.envs[i].name(self.dir.clone()));
            i = i + 1;
        }
        out
    }

    /// Find the request template whose derived name is exactly `name`; the
    /// first match in discovery order wins.
    pub fn get_req(&self, name: String) -> (r: Result<Request, ReqqError>)
        ensures
            match r {
                Ok(req) => self.req_found_at(name@, self.first_req(name@)) && req.fpath
                    == self.reqs@[self.first_req(name@)].fpath && req.fstr == self.reqs@[self.first_req(
                    name@,
                )].fstr,
                Err(e) => e matches ReqqError::RequestNotFound(m) && m@ == name@ && !self.has_req(
                    name@,
                ),
            },
    {
        let n = self.reqs.len();
        let mut i: usize = 0;
        while i < n
            invariant
                i <= n,
                n == self.reqs@.len(),
                forall|j: int| 0 <= j < i ==> self.req_name_at(j) != name@,
            decreases n - i,
        {
            let nm = self.reqs[i].name(self.dir.clone());
            if nm == name {
                proof {
                    assert(self.req_found_at(name@, i as int));
                    let c = self.first_req(name@);
                    assert(self.req_found_at(name@, c));
                    if c < i {
                        assert(self.req_name_at(c) != name@);
                    }
                    if c > i {
                        assert(self.req_name_at(i as int) != name@);
                    }
                }
                let found = &self.reqs[i];
                return Ok(Request { fpath: found.fpath.clone(), fstr: clone_opt(&found.fstr) });
            }
            i = i + 1;
        }
        Err(ReqqError::RequestNotFound(name))
    }

    /// Find the environment store whose derived name is exactly `name`;
    /// the first match in discovery order wins.
    pub fn get_env(&self, name: String) -> (r: Result<Env, ReqqError>)
        ensures
            match r {
                Ok(env) => self.env_found_at(name@, self.first_env(name@)) && env.fpath
                    == self.envs@[self.first_env(name@)].fpath && env.fstr == self.envs@[self.first_env(
                    name@,
                )].fstr,
                Err(e) => e matches ReqqError::EnvNotFound(m) && m@ == name@ && !self.has_env(
                    name@,
                ),
            },
    {
        let n = self.envs.len();
        let mut i: usize = 0;
        while i < n
            invariant
                i <= n,
                n == self.envs@.len(),
                forall|j: int| 0 <= j < i ==> self.env_name_at(j) != name@,
            decreases n - i,
        {
            let nm = self.envs[i].name(self.dir.clone());
            if nm == name {
                proof {
                    assert(self.env_found_at(name@, i as int));
                    let c = self.first_env(name@);
                    assert(self.env_found_at(name@, c));
                    if c < i {
                        assert(self.env_name_at(c) != name@);
                    }
                    if c > i {
                        assert(self.env_name_at(i as int) != name@);
                    }
                }
                let found = &self.envs[i];
                return Ok(Env { fpath: found.fpath.clone(), fstr: clone_opt(&found.fstr) });
            }
            i = i + 1;
        }
        Err(ReqqError::EnvNotFound(name))
    }

    /// Execute the request carrying `req_name`, optionally against the
    /// environment carrying `env_name`, and return the resolved text. The
    /// caller reads the files and hands the texts in as `req_text` and
    /// `env_text` (`None` when a read failed); a text already cached on
    /// the catalog's entry takes precedence. Lookup failures come first:
    /// an absent request name, then an absent environment name, then a
    /// failed read, then parse and resolution errors.
    pub fn execute(
        &self,
        req_name: String,
        env_name: Option<String>,
        req_text: Option<String>,
        env_text: Option<String>,
    ) -> (r: Result<String, ReqqError>)
        ensures
            ({
                let rn = req_name@;
                if !self.has_req(rn) {
                    r matches Err(e) && e matches ReqqError::RequestNotFound(m) && m@ == rn
                } else {
                    let rtext = effective(self.reqs@[self.first_req(rn)].fstr, req_text);
                    match env_name {
                        None => if rtext is None {
                            r == Err::<String, ReqqError>(
                                ReqqError::RequestError(RequestError::ReadError),
                            )
                        } else {
                            r matches Ok(s) && s@ == rtext->0@
                        },
                        Some(en) => if !self.has_env(en@) {
                            r matches Err(e) && e matches ReqqError::EnvNotFound(m) && m@ == en@
                        } else if rtext is None {
                            r == Err::<String, ReqqError>(
                                ReqqError::RequestError(RequestError::ReadError),
                            )
                        } else {
                            let etext = effective(self.envs@[self.first_env(en@)].fstr, env_text);
                            if etext is None {
                                r == Err::<String, ReqqError>(
                                    ReqqError::RequestError(
                                        RequestError::EnvError(EnvError::ReadError),
                                    ),
                                )
                            } else {
                                match json_of(etext->0@) {
                                    Some(d) => match resolve_spec(rtext->0@, d) {
                                        Ok(t) => r matches Ok(s) && s@ == t,
                                        Err(e) => r matches Err(qe) && qe
                                            matches ReqqError::RequestError(re) && err_reflects(
                                            re,
                                            e,
                                        ),
                                    },
                                    None => r matches Err(qe) && qe matches ReqqError::RequestError(
                                        re,
                                    ) && re matches RequestError::EnvError(pe) && pe is ParseError,
                                }
                            }
                        },
                    }
                }
            }),
    {
        let mut req = match self.get_req(req_name) {
            Ok(q) => q,
            Err(e) => {
                return Err(e);
            },
        };
        let env_found: Option<Env> = match env_name {
            Some(en) => match self.get_env(en) {
                Ok(e) => Some(e),
                Err(e) => {
                    return Err(e);
                },
            },
            None => None,
        };
        match req.load(req_text) {
            Ok(_) => {},
            Err(re) => {
                return Err(ReqqError::RequestError(re));
            },
        }
        match env_found {
            None => match req.resolve(None) {
                Ok(s) => Ok(s),
                Err(re) => Err(ReqqError::RequestError(re)),
            },
            Some(env) => {
                let mut env = env;
                match env.load(env_text) {
                    Ok(_) => {},
                    Err(ee) => {
                        return Err(ReqqError::RequestError(RequestError::EnvError(ee)));
                    },
                }
                match req.resolve(Some(&env)) {
                    Ok(s) => Ok(s),
                    Err(re) => Err(ReqqError::RequestError(re)),
                }
            },
        }
    }
}

/// Partition invariant: of the files discovered under one root, those held
/// as request templates and those held as environment stores are disjoint
/// — every request path lies outside the environments subdirectory, every
/// environment path inside it, and no path stands in both collections.
pub proof fn lemma_partition(fpaths: Seq<String>, dir: Seq<char>)
    ensures
        forall|i: int|
            0 <= i < req_paths(fpaths, dir).len() ==> !is_env_path(
                #[trigger] req_paths(fpaths, dir)[i]@,
                dir,
            ),
        forall|i: int|
            0 <= i < env_paths(fpaths, dir).len() ==> is_env_path(
                #[trigger] env_paths(fpaths, dir)[i]@,
                dir,
            ),
        forall|i: int, j: int|
            0 <= i < req_paths(fpaths, dir).len() && 0 <= j < env_paths(fpaths, dir).len()
                ==> #[trigger] req_paths(fpaths, dir)[i] != #[trigger] env_paths(fpaths, dir)[j],
{
    assert forall|i: int| 0 <= i < req_paths(fpaths, dir).len() implies !is_env_path(
        #[trigger] req_paths(fpaths, dir)[i]@,
        dir,
    ) by {
        fpaths.lemma_filter_pred(|p: String| !is_env_path(p@, dir), i);
    }
    assert forall|i: int| 0 <= i < env_paths(fpaths, dir).len() implies is_env_path(
        #[trigger] env_paths(fpaths, dir)[i]@,
        dir,
    ) by {
        fpaths.lemma_filter_pred(|p: String| is_env_path(p@, dir), i);
    }
}

/// Partition invariant at the catalog level: in a catalog built from one
/// scan, no file stands both as a request template and as an environment
/// store.
pub proof fn lemma_catalog_partition(q: Reqq, dir: String, fpaths: Seq<String>)
    requires
        q.built_from(dir, fpaths),
    ensures
        forall|i: int, j: int|
            0 <= i < q.reqs@.len() && 0 <= j < q.envs@.len()
                ==> (#[trigger] q.reqs@[i]).fpath != (#[trigger] q.envs@[j]).fpath,
{
    lemma_partition(fpaths, dir@);
    assert forall|i: int, j: int|
        0 <= i < q.reqs@.len() && 0 <= j < q.envs@.len() implies (#[trigger] q.reqs@[i]).fpath != (
    #[trigger] q.envs@[j]).fpath by {
        assert(q.reqs@[i].fpath == req_paths(fpaths, dir@)[i]);
        assert(q.envs@[j].fpath == env_paths(fpaths, dir@)[j]);
    }
}

} // verus!
