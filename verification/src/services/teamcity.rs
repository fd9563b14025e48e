//! TeamCity, described by its build properties file and the configuration
//! properties file that the first one names.

use vstd::prelude::*;
use vstd::string::*;

use crate::errors::{Error, ErrorView, KindView};
use crate::services::props::{last_value, missing_key, parse_content, Props};
use crate::services::{Env, Service};
use crate::text::same_str;

verus! {

/// A TeamCity build: the server with its version, the project, whether the
/// branch is the default one, and the address of the store.
#[derive(Debug)]
pub struct TeamCity {
    pub name: String,
    pub project_id: String,
    pub is_default_branch: bool,
    pub remote_url: String,
}

/// Whether the environment names a build properties file.
pub open spec fn available(env: Env) -> bool {
    env.value("TEAMCITY_BUILD_PROPERTIES_FILE"@) is Some
}

/// The error of an environment that names no build properties file.
pub open spec fn no_properties_file() -> ErrorView {
    ErrorView {
        kind: KindView::UnrecognizedService,
        cause: Some("Environment variable 'TEAMCITY_BUILD_PROPERTIES_FILE' wasn't found"@),
    }
}

/// The value of `key` in the properties that `content` holds.
pub open spec fn property(content: Seq<char>, key: Seq<char>) -> Option<Seq<char>> {
    last_value(parse_content(content), key, parse_content(content).len() as int)
}

/// The first of `keys` that the properties of `content` do not hold.
pub open spec fn first_absent(content: Seq<char>, keys: Seq<Seq<char>>) -> Option<Seq<char>>
    decreases keys.len(),
{
    if keys.len() == 0 {
        None
    } else if property(content, keys[0]) is None {
        Some(keys[0])
    } else {
        first_absent(content, keys.drop_first())
    }
}

/// The keys that the build properties must hold, in the order in which they
/// are looked up.
pub open spec fn build_keys() -> Seq<Seq<char>> {
    seq![
        "teamcity.version"@,
        "tc.cache.remote.url"@,
        "teamcity.configuration.properties.file"@,
    ]
}

/// The keys that the configuration properties must hold.
pub open spec fn config_keys() -> Seq<Seq<char>> {
    seq!["teamcity.serverUrl"@, "teamcity.project.id"@]
}

/// The name under which the service is reported: version and server.
pub open spec fn name_of(build: Seq<char>, config: Seq<char>) -> Seq<char> {
    property(build, "teamcity.version"@)->Some_0 + " at "@ + property(
        config,
        "teamcity.serverUrl"@,
    )->Some_0
}

impl TeamCity {
    /// Whether the environment names a build properties file.
    pub fn is_available(env: &Env) -> (yes: bool)
        ensures
            yes == available(*env),
    {
        env.contains_key("TEAMCITY_BUILD_PROPERTIES_FILE")
    }

    /// The path of the build properties file that the environment names.
    pub fn from_env(env: &Env) -> (result: Result<String, Error>)
        ensures
            match result {
                Ok(path) => env.value("TEAMCITY_BUILD_PROPERTIES_FILE"@) == Some(path@),
                Err(error) => !available(*env) && error@ == no_properties_file(),
            },
    {
        match env.get("TEAMCITY_BUILD_PROPERTIES_FILE") {
            Some(path) => Ok(String::from_str(path)),
            None => Err(
                Error::unrecognized_service(
                    "Environment variable 'TEAMCITY_BUILD_PROPERTIES_FILE' wasn't found",
                ),
            ),
        }
    }

    /// The path of the configuration properties file that the build
    /// properties name, after the version and the address of the store
    /// have been found in them.
    pub fn configuration_path(build: &str) -> (result: Result<String, Error>)
        ensures
            match first_absent(build@, build_keys()) {
                Some(key) => result is Err && result->Err_0@ == missing_key(key),
                None => result is Ok && Some(result->Ok_0@) == property(
                    build@,
                    "teamcity.configuration.properties.file"@,
                ),
            },
    {
        let props = Props::from_content(build);
        proof {
            reveal_with_fuel(first_absent, 4);
        }
        match props.key("teamcity.version") {
            Ok(_) => {},
            Err(error) => {
                return Err(error);
            },
        }
        match props.key("tc.cache.remote.url") {
            Ok(_) => {},
            Err(error) => {
                return Err(error);
            },
        }
        match props.key("teamcity.configuration.properties.file") {
            Ok(path) => Ok(String::from_str(path)),
            Err(error) => Err(error),
        }
    }

    /// The service that the contents of the two property files describe.
    /// The build properties give the version and the address of the store;
    /// the configuration properties give the server, the project and
    /// whether the branch is the default one (`true`; anything else, or
    /// nothing, is no).
    pub fn from_path(build: &str, config: &str) -> (result: Result<TeamCity, Error>)
        ensures
            match first_absent(build@, build_keys()) {
                Some(key) => result is Err && result->Err_0@ == missing_key(key),
                None => match first_absent(config@, config_keys()) {
                    Some(key) => result is Err && result->Err_0@ == missing_key(key),
                    None => {
                        &&& result is Ok
                        &&& result->Ok_0.name@ == name_of(build@, config@)
                        &&& Some(result->Ok_0.project_id@) == property(
                            config@,
                            "teamcity.project.id"@,
                        )
                        &&& Some(result->Ok_0.remote_url@) == property(
                            build@,
                            "tc.cache.remote.url"@,
                        )
                        &&& result->Ok_0.is_default_branch == (property(
                            config@,
                            "teamcity.build.branch.is_default"@,
                        ) == Some("true"@))
                    },
                },
            },
    {
        proof {
            reveal_with_fuel(first_absent, 4);
        }
        let props = Props::from_content(build);
        let version = match props.key("teamcity.version") {
            Ok(value) => value,
            Err(error) => {
                return Err(error);
            },
        };
        let remote_url = match props.key("tc.cache.remote.url") {
            Ok(value) => String::from_str(value),
            Err(error) => {
                return Err(error);
            },
        };
        match props.key("teamcity.configuration.properties.file") {
            Ok(_) => {},
            Err(error) => {
                return Err(error);
            },
        }
        let settings = Props::from_content(config);
        let server_url = match settings.key("teamcity.serverUrl") {
            Ok(value) => value,
            Err(error) => {
                return Err(error);
            },
        };
        let project_id = match settings.key("teamcity.project.id") {
            Ok(value) => String::from_str(value),
            Err(error) => {
                return Err(error);
            },
        };
        let is_default_branch = match settings.key("teamcity.build.branch.is_default") {
            Ok(value) => same_str(value, "true"),
            Err(_) => false,
        };
        let mut name = String::from_str(version);
        name.append(" at ");
        name.append(server_url);
        Ok(TeamCity { name, project_id, is_default_branch, remote_url })
    }
}

impl Service for TeamCity {
    open spec fn facts(&self) -> (Seq<char>, bool, Seq<char>) {
        (self.project_id@, self.is_default_branch, self.remote_url@)
    }

    open spec fn label(&self) -> Seq<char> {
        "TeamCity "@ + self.name@
    }

    fn project_id(&self) -> (id: &str) {
        self.project_id.as_str()
    }

    fn is_uploadable(&self) -> (yes: bool) {
        self.is_default_branch
    }

    fn remote_url(&self) -> (url: &str) {
        self.remote_url.as_str()
    }

    fn to_string(&self) -> (text: String) {
        let mut text = String::from_str("TeamCity ");
        text.append(self.name.as_str());
        text
    }
}

} // verus!
