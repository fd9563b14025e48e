//! The service that three variables of the environment describe.

use vstd::prelude::*;
use vstd::string::*;

use crate::errors::{Error, ErrorView, KindView};
use crate::services::{Env, Service};
use crate::text::same_str;

verus! {

/// A build service that is described by variables of the environment.
#[derive(Debug)]
pub struct Generic {
    pub project_id: String,
    pub upload: bool,
    pub remote_url: String,
}

/// Whether the three variables of the generic service are set.
pub open spec fn available(env: Env) -> bool {
    env.value("TC_CACHE_PROJECT_ID"@) is Some && env.value("TC_CACHE_UPLOAD"@) is Some && env.value(
        "TC_CACHE_REMOTE_URL"@,
    ) is Some
}

/// The project, whether to upload (`1` or `true`), and the address of the
/// store, as the variables give them.
pub open spec fn facts_of(env: Env) -> (Seq<char>, bool, Seq<char>) {
    (
        env.value("TC_CACHE_PROJECT_ID"@)->Some_0,
        env.value("TC_CACHE_UPLOAD"@)->Some_0 == "1"@ || env.value("TC_CACHE_UPLOAD"@)->Some_0
            == "true"@,
        env.value("TC_CACHE_REMOTE_URL"@)->Some_0,
    )
}

/// The first of the three variables that is not set.
pub open spec fn first_missing(env: Env) -> Seq<char> {
    if env.value("TC_CACHE_PROJECT_ID"@) is None {
        "TC_CACHE_PROJECT_ID"@
    } else if env.value("TC_CACHE_UPLOAD"@) is None {
        "TC_CACHE_UPLOAD"@
    } else {
        "TC_CACHE_REMOTE_URL"@
    }
}

/// The error of a variable that is not set.
pub open spec fn not_found(name: Seq<char>) -> ErrorView {
    ErrorView {
        kind: KindView::UnrecognizedService,
        cause: Some("Environment variable '"@ + name + "' was not found"@),
    }
}

/// The text that names a generic service in reports.
pub open spec fn label_of(facts: (Seq<char>, bool, Seq<char>)) -> Seq<char> {
    "Env(project="@ + facts.0 + ", upload="@ + if facts.1 {
        "true"@
    } else {
        "false"@
    } + ", remote_url="@ + facts.2 + ")"@
}

fn missing(name: &str) -> (error: Error)
    ensures
        error@ == not_found(name@),
{
    let mut cause = String::from_str("Environment variable '");
    cause.append(name);
    cause.append("' was not found");
    Error::unrecognized_service(cause.as_str())
}

impl Generic {
    /// Whether the three variables of the generic service are set.
    pub fn is_available(env: &Env) -> (yes: bool)
        ensures
            yes == available(*env),
    {
        env.contains_key("TC_CACHE_PROJECT_ID") && env.contains_key("TC_CACHE_UPLOAD")
            && env.contains_key("TC_CACHE_REMOTE_URL")
    }

    /// The service that the variables describe, or the error of the first
    /// of them that is not set.
    pub fn from_env(env: &Env) -> (result: Result<Generic, Error>)
        ensures
            match result {
                Ok(generic) => available(*env) && generic.facts() == facts_of(*env),
                Err(error) => !available(*env) && error@ == not_found(first_missing(*env)),
            },
    {
        let project_id = match env.get("TC_CACHE_PROJECT_ID") {
            Some(value) => String::from_str(value),
            None => {
                return Err(missing("TC_CACHE_PROJECT_ID"));
            },
        };
        let upload = match env.get("TC_CACHE_UPLOAD") {
            Some(value) => same_str(value, "1") || same_str(value, "true"),
            None => {
                return Err(missing("TC_CACHE_UPLOAD"));
            },
        };
        let remote_url = match env.get("TC_CACHE_REMOTE_URL") {
            Some(value) => String::from_str(value),
            None => {
                return Err(missing("TC_CACHE_REMOTE_URL"));
            },
        };
        Ok(Generic { project_id, upload, remote_url })
    }
}

impl Service for Generic {
    open spec fn facts(&self) -> (Seq<char>, bool, Seq<char>) {
        (self.project_id@, self.upload, self.remote_url@)
    }

    open spec fn label(&self) -> Seq<char> {
        label_of(self.facts())
    }

    fn project_id(&self) -> (id: &str) {
        self.project_id.as_str()
    }

    fn is_uploadable(&self) -> (yes: bool) {
        self.upload
    }

    fn remote_url(&self) -> (url: &str) {
        self.remote_url.as_str()
    }

    fn to_string(&self) -> (text: String) {
        let mut text = String::from_str("Env(project=");
        text.append(self.project_id.as_str());
        text.append(", upload=");
        if self.upload {
            text.append("true");
        } else {
            text.append("false");
        }
        text.append(", remote_url=");
        text.append(self.remote_url.as_str());
        text.append(")");
        text
    }
}

} // verus!
