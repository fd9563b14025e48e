use tc_cache::services::props::Props;
use tc_cache::services::{Detected, Env, Generic, TeamCity};
use tc_cache::{ErrorKind, Service, ServiceFactory};

const PROJECT_ID: &str = "TC_CACHE_PROJECT_ID";
const UPLOAD: &str = "TC_CACHE_UPLOAD";
const REMOTE_URL: &str = "TC_CACHE_REMOTE_URL";
const TEAMCITY_VERSION: &str = "teamcity.version";
const TEAMCITY_SERVER_URL: &str = "teamcity.serverUrl";
const TEAMCITY_PROJECT_ID: &str = "teamcity.project.id";
const TEAMCITY_BUILD_BRANCH_IS_DEFAULT: &str = "teamcity.build.branch.is_default";
const TC_CACHE_REMOTE_URL: &str = "tc.cache.remote.url";
const TEAMCITY_BUILD_PROPERTIES_FILE: &str = "TEAMCITY_BUILD_PROPERTIES_FILE";
const TEAMCITY_CONFIGURATION_PROPERTIES_FILE: &str = "teamcity.configuration.properties.file";
const TEAMCITY_BUILD_PROPS_PATH: &str = "tests/fixtures/teamcity/build.properties";

const BUILD_PROPERTIES: &str = "#TeamCity build properties without 'system.' prefix\n\
#Sat Feb 02 12\\:00\\:00 UTC 2019\n\
agent.home.dir=/opt/buildagent\n\
agent.name=Default Agent\n\
build.number=42\n\
tc.cache.remote.url=s3\\://teamcity/cache?endpoint\\=http\\://127.0.0.1\\:9000\n\
teamcity.build.checkoutDir=/opt/buildagent/work/2b35ac7e0452d98f\n\
teamcity.configuration.properties.file=tests/fixtures/teamcity/config.properties\n\
teamcity.projectName=Example\n\
teamcity.version=2018.1.3 (build 58658)\n";

const CONFIG_PROPERTIES: &str = "#TeamCity config/build parameters\r\n\
#Sat Feb 02 12\\:00\\:00 UTC 2019\r\n\
teamcity.build.branch=master\r\n\
  teamcity.build.branch.is_default = true  \r\n\
teamcity.project.id=Github_Example_Example\r\n\
teamcity.serverUrl=http\\://localhost\\:8111\r\n\
vcsroot.url=https\\://github.com/example/example.git";

#[test]
fn parse_build_properties() {
    let props = Props::from_content(BUILD_PROPERTIES);

    assert_eq!(props.key("foo").ok(), None);

    assert_eq!(
        props.key(TEAMCITY_VERSION).unwrap(),
        "2018.1.3 (build 58658)",
        "{:?}",
        props
    );

    assert_eq!(
        props.key(TC_CACHE_REMOTE_URL).unwrap(),
        "s3://teamcity/cache?endpoint=http://127.0.0.1:9000",
        "{:?}",
        props
    );

    assert_eq!(
        props.key(TEAMCITY_CONFIGURATION_PROPERTIES_FILE).unwrap(),
        "tests/fixtures/teamcity/config.properties",
        "{:?}",
        props
    );
}

#[test]
fn parse_configuration_properties() {
    let props = Props::from_content(CONFIG_PROPERTIES);

    assert_eq!(props.key("foo").ok(), None);

    assert_eq!(
        props.key(TEAMCITY_SERVER_URL).unwrap(),
        "http://localhost:8111",
        "{:?}",
        props
    );
    assert_eq!(
        props.key(TEAMCITY_PROJECT_ID).unwrap(),
        "Github_Example_Example",
        "{:?}",
        props
    );
    assert_eq!(
        props.key(TEAMCITY_BUILD_BRANCH_IS_DEFAULT).unwrap(),
        "true",
        "{:?}",
        props
    );
}

#[test]
fn teamcity_from_env() {
    let env = {
        let mut env = Env::new();
        env.insert(TEAMCITY_BUILD_PROPERTIES_FILE, TEAMCITY_BUILD_PROPS_PATH);
        let path = TeamCity::from_env(&env).unwrap();
        assert_eq!(path, TEAMCITY_BUILD_PROPS_PATH);
        assert_eq!(
            TeamCity::configuration_path(BUILD_PROPERTIES).unwrap(),
            "tests/fixtures/teamcity/config.properties"
        );
        TeamCity::from_path(BUILD_PROPERTIES, CONFIG_PROPERTIES).unwrap()
    };

    assert_eq!(
        env.to_string(),
        "TeamCity 2018.1.3 (build 58658) at http://localhost:8111"
    );
    assert_eq!(env.project_id(), "Github_Example_Example");
    assert_eq!(env.is_uploadable(), true);
    assert_eq!(
        env.remote_url(),
        "s3://teamcity/cache?endpoint=http://127.0.0.1:9000"
    );
}

#[test]
fn generic_from_env() {
    let mut env = Env::new();

    assert_eq!(Generic::is_available(&env), false);

    match Generic::from_env(&env) {
        Err(err) => assert!(err.to_string().contains("was not found")),
        Ok(ok) => unreachable!("{:?}", ok),
    }

    env.insert(PROJECT_ID, "projectId");
    env.insert(UPLOAD, "1");
    env.insert(REMOTE_URL, "http://example.com");

    assert_eq!(Generic::is_available(&env), true);

    let generic = match Generic::from_env(&env) {
        Ok(ok) => ok,
        Err(err) => unreachable!("{:?}", err),
    };

    assert_eq!(
        generic.to_string(),
        "Env(project=projectId, upload=true, remote_url=http://example.com)"
    );
}

#[test]
fn generic_names_the_first_missing_variable() {
    let mut env = Env::new();
    let err = Generic::from_env(&env).unwrap_err();
    assert!(matches!(err.kind, ErrorKind::UnrecognizedService));
    assert_eq!(
        err.to_string(),
        "Unrecognized service; Environment variable 'TC_CACHE_PROJECT_ID' was not found"
    );
    env.insert(PROJECT_ID, "p");
    let err = Generic::from_env(&env).unwrap_err();
    assert_eq!(
        err.to_string(),
        "Unrecognized service; Environment variable 'TC_CACHE_UPLOAD' was not found"
    );
    env.insert(UPLOAD, "yes");
    assert_eq!(Generic::is_available(&env), false);
    let err = Generic::from_env(&env).unwrap_err();
    assert_eq!(
        err.to_string(),
        "Unrecognized service; Environment variable 'TC_CACHE_REMOTE_URL' was not found"
    );
    env.insert(REMOTE_URL, "s3://b");
    let generic = Generic::from_env(&env).unwrap();
    assert_eq!(generic.is_uploadable(), false);
    assert_eq!(generic.project_id(), "p");
    assert_eq!(generic.remote_url(), "s3://b");
    env.insert(UPLOAD, "true");
    assert_eq!(Generic::from_env(&env).unwrap().is_uploadable(), true);
    assert_eq!(env.get(UPLOAD), Some("true"));
    assert_eq!(env.get("OTHER"), None);
}

#[test]
fn teamcity_needs_its_keys() {
    let err = TeamCity::from_path("", CONFIG_PROPERTIES).err().unwrap();
    assert_eq!(
        err.to_string(),
        "Unrecognized service; Cannot found key 'teamcity.version' in build properties"
    );
    let err = TeamCity::from_path("teamcity.version=1", CONFIG_PROPERTIES).err().unwrap();
    assert_eq!(
        err.to_string(),
        "Unrecognized service; Cannot found key 'tc.cache.remote.url' in build properties"
    );
    let build = "teamcity.version=1\ntc.cache.remote.url=s3\\://b";
    let err = TeamCity::configuration_path(build).unwrap_err();
    assert_eq!(
        err.to_string(),
        "Unrecognized service; Cannot found key 'teamcity.configuration.properties.file' in build properties"
    );
    let build = "teamcity.version=1\ntc.cache.remote.url=s3\\://b\nteamcity.configuration.properties.file=c";
    let err = TeamCity::from_path(build, "").err().unwrap();
    assert_eq!(
        err.to_string(),
        "Unrecognized service; Cannot found key 'teamcity.serverUrl' in build properties"
    );
    let err = TeamCity::from_path(build, "teamcity.serverUrl=u").err().unwrap();
    assert_eq!(
        err.to_string(),
        "Unrecognized service; Cannot found key 'teamcity.project.id' in build properties"
    );
    let found = TeamCity::from_path(build, "teamcity.serverUrl=u\nteamcity.project.id=p").unwrap();
    assert_eq!(found.is_uploadable(), false);
    assert_eq!(found.to_string(), "TeamCity 1 at u");
    let config = "teamcity.serverUrl=u\nteamcity.project.id=p\nteamcity.build.branch.is_default=false";
    assert_eq!(TeamCity::from_path(build, config).unwrap().is_uploadable(), false);
}

#[test]
fn teamcity_without_the_variable() {
    let env = Env::new();
    assert_eq!(TeamCity::is_available(&env), false);
    let err = TeamCity::from_env(&env).unwrap_err();
    assert_eq!(
        err.to_string(),
        "Unrecognized service; Environment variable 'TEAMCITY_BUILD_PROPERTIES_FILE' wasn't found"
    );
}

#[test]
fn lines_of_a_property_file() {
    assert_eq!(Props::parse("a=b"), Some(("a".to_string(), "b".to_string())));
    assert_eq!(Props::parse("  a  =  b c  "), Some(("a".to_string(), "b c".to_string())));
    assert_eq!(Props::parse("\ta=b\r"), Some(("a".to_string(), "b".to_string())));
    assert_eq!(Props::parse("\u{a0}a\u{2003}=\u{3000}b\u{85}"), Some(("a".to_string(), "b".to_string())));
    assert_eq!(Props::parse("a=b=c"), Some(("a".to_string(), "b=c".to_string())));
    assert_eq!(Props::parse("a=\\:\\=\\\\:\\a\\"), Some(("a".to_string(), ":=\\:\\a\\".to_string())));
    assert_eq!(Props::parse("a=\\\\="), Some(("a".to_string(), "\\=".to_string())));
    assert_eq!(Props::parse("# a=b"), None);
    assert_eq!(Props::parse("   #a=b"), None);
    assert_eq!(Props::parse("a #=b"), Some(("a #".to_string(), "b".to_string())));
    assert_eq!(Props::parse("no equals sign"), None);
    assert_eq!(Props::parse("=b"), None);
    assert_eq!(Props::parse("  = b"), None);
    assert_eq!(Props::parse("a="), None);
    assert_eq!(Props::parse("a=   "), None);
    assert_eq!(Props::parse(""), None);
    assert_eq!(Props::parse("   "), None);
}

#[test]
fn content_of_a_property_file() {
    let props = Props::from_content("a=1\n\n#c\nb=2\na=3\n=x\n");
    let pairs: Vec<(&str, &str)> =
        props.pairs.iter().map(|it| (it.0.as_str(), it.1.as_str())).collect();
    assert_eq!(pairs, vec![("a", "1"), ("b", "2"), ("a", "3")]);
    assert_eq!(props.key("a").unwrap(), "3");
    assert_eq!(props.key("b").unwrap(), "2");
    assert!(Props::from_content("").pairs.is_empty());
    assert!(Props::from_content("\n\n").pairs.is_empty());
    assert_eq!(Props::from_content("k=v").key("k").unwrap(), "v");
}

#[test]
fn factory_picks_the_service() {
    let mut env = Env::new();
    let err = ServiceFactory::from_env(&env, None).unwrap_err();
    assert_eq!(err.to_string(), "Unrecognized service; Unable to detect service");

    env.insert(TEAMCITY_BUILD_PROPERTIES_FILE, "/agent/build.properties");
    match ServiceFactory::from_env(&env, None).unwrap() {
        Detected::TeamCityFile(path) => assert_eq!(path, "/agent/build.properties"),
        other => unreachable!("{:?}", other),
    }

    env.insert(PROJECT_ID, "projectId");
    env.insert(UPLOAD, "true");
    match ServiceFactory::from_env(&env, None).unwrap() {
        Detected::TeamCityFile(path) => assert_eq!(path, "/agent/build.properties"),
        other => unreachable!("{:?}", other),
    }

    env.insert(REMOTE_URL, "s3://bucket");
    match ServiceFactory::from_env(&env, None).unwrap() {
        Detected::Generic(generic) => {
            assert_eq!(generic.project_id(), "projectId");
            assert_eq!(generic.is_uploadable(), true);
            assert_eq!(generic.remote_url(), "s3://bucket");
        }
        other => unreachable!("{:?}", other),
    }

    match ServiceFactory::from_env(&env, Some("given.properties")).unwrap() {
        Detected::TeamCityFile(path) => assert_eq!(path, "given.properties"),
        other => unreachable!("{:?}", other),
    }
}
