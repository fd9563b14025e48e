//! The build service that a cache belongs to: which project, whether this
//! build may upload, and where snapshots are kept.

use vstd::prelude::*;
use vstd::string::*;

pub mod generic;
pub mod props;
pub mod teamcity;

pub use self::generic::Generic;
pub use self::teamcity::TeamCity;

use crate::errors::{Error, ErrorView, KindView};
use crate::services::props::{last_value, pair_views};
use crate::text::same_text;

verus! {

/// The variables of the environment of the process, as pairs of name and
/// value. Of several pairs with one name the last counts.
#[derive(Debug)]
pub struct Env {
    pub vars: Vec<(String, String)>,
}

impl Env {
    /// The value of the variable `name`.
    pub open spec fn value(&self, name: Seq<char>) -> Option<Seq<char>> {
        last_value(pair_views(self.vars@), name, self.vars@.len() as int)
    }

    pub fn new() -> (env: Env)
        ensures
            env.vars@.len() == 0,
    {
        Env { vars: Vec::new() }
    }

    /// Sets the variable `name` to `value`.
    pub fn insert(&mut self, name: &str, value: &str)
        ensures
            final(self).vars@ == old(self).vars@.push(final(self).vars@.last()),
            final(self).vars@.last().0@ == name@,
            final(self).vars@.last().1@ == value@,
            final(self).value(name@) == Some(value@),
    {
        self.vars.push((String::from_str(name), String::from_str(value)));
    }

    /// The value of the variable `name`, if it is set.
    pub fn get(&self, name: &str) -> (found: Option<&str>)
        ensures
            match found {
                Some(value) => self.value(name@) == Some(value@),
                None => self.value(name@) is None,
            },
    {
        let wanted = String::from_str(name);
        let mut i: usize = self.vars.len();
        while i > 0
            invariant
                i <= self.vars@.len(),
                wanted@ == name@,
                self.value(name@) == last_value(pair_views(self.vars@), name@, i as int),
            decreases i,
        {
            if same_text(&self.vars[i - 1].0, &wanted) {
                return Some(self.vars[i - 1].1.as_str());
            }
            i -= 1;
        }
        None
    }

    /// Whether the variable `name` is set.
    pub fn contains_key(&self, name: &str) -> (found: bool)
        ensures
            found == self.value(name@) is Some,
    {
        self.get(name).is_some()
    }
}

/// What the cache needs to know of the service that runs the build.
pub trait Service: Sized {
    /// The values of the service: project, whether the build may upload,
    /// and the address of the store.
    spec fn facts(&self) -> (Seq<char>, bool, Seq<char>);

    /// The text that names the service in reports.
    spec fn label(&self) -> Seq<char>;

    fn project_id(&self) -> (id: &str)
        ensures
            id@ == self.facts().0,
    ;

    fn is_uploadable(&self) -> (yes: bool)
        ensures
            yes == self.facts().1,
    ;

    fn remote_url(&self) -> (url: &str)
        ensures
            url@ == self.facts().2,
    ;

    fn to_string(&self) -> (text: String)
        ensures
            text@ == self.label(),
    ;
}

/// The service that was detected, or the file that describes it.
#[derive(Debug)]
pub enum Detected {
    /// The service that the variables of the environment describe.
    Generic(Generic),
    /// TeamCity, described by the build properties file at this path.
    TeamCityFile(String),
}

/// The error of an environment in which no service can be detected.
pub open spec fn undetected() -> ErrorView {
    ErrorView { kind: KindView::UnrecognizedService, cause: Some("Unable to detect service"@) }
}

/// Detection of the build service.
#[derive(Debug)]
pub struct ServiceFactory;

impl ServiceFactory {
    /// Detects the service. A build properties file that is given wins;
    /// then the variables of the generic service, where all three are set;
    /// then the variable that names TeamCity's build properties file.
    pub fn from_env(env: &Env, teamcity_build_properties_path: Option<&str>) -> (result: Result<
        Detected,
        Error,
    >)
        ensures
            match teamcity_build_properties_path {
                Some(path) => result is Ok && result->Ok_0 is TeamCityFile
                    && result->Ok_0->TeamCityFile_0@ == path@,
                None => if generic::available(*env) {
                    &&& result is Ok
                    &&& result->Ok_0 is Generic
                    &&& result->Ok_0->Generic_0.facts() == generic::facts_of(*env)
                } else if teamcity::available(*env) {
                    &&& result is Ok
                    &&& result->Ok_0 is TeamCityFile
                    &&& Some(result->Ok_0->TeamCityFile_0@) == env.value(
                        "TEAMCITY_BUILD_PROPERTIES_FILE"@,
                    )
                } else {
                    result is Err && result->Err_0@ == undetected()
                },
            },
    {
        if let Some(path) = teamcity_build_properties_path {
            return Ok(Detected::TeamCityFile(String::from_str(path)));
        }
        if Generic::is_available(env) {
            return match Generic::from_env(env) {
                Ok(generic) => Ok(Detected::Generic(generic)),
                Err(error) => Err(error),
            };
        }
        if TeamCity::is_available(env) {
            return match TeamCity::from_env(env) {
                Ok(path) => Ok(Detected::TeamCityFile(path)),
                Err(error) => Err(error),
            };
        }
        Err(Error::unrecognized_service("Unable to detect service"))
    }
}

} // verus!
