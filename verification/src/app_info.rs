//! What names the application and where its configuration lives.
use std::path::PathBuf;
use vstd::prelude::*;

verus! {

/// A path of the file system, as std keeps it; Verus sees nothing inside it.
#[verifier::external_type_specification]
#[verifier::external_body]
pub struct ExPathBuf(PathBuf);

/// The names under which the application keeps its configuration: the variable
/// whose presence marks a test run, and the three names of its project
/// directory.
pub struct AppInfo {
    env_arg: &'static str,
    qualifier: &'static str,
    organization: &'static str,
    application: &'static str,
}

impl AppInfo {
    pub closed spec fn spec_env_arg(&self) -> Seq<char> {
        self.env_arg@
    }

    pub closed spec fn spec_qualifier(&self) -> Seq<char> {
        self.qualifier@
    }

    pub closed spec fn spec_organization(&self) -> Seq<char> {
        self.organization@
    }

    pub closed spec fn spec_application(&self) -> Seq<char> {
        self.application@
    }

    pub fn new(
        env_arg: &'static str,
        qualifier: &'static str,
        organization: &'static str,
        application: &'static str,
    ) -> (r: Self)
        ensures
            r.spec_env_arg() == env_arg@,
            r.spec_qualifier() == qualifier@,
            r.spec_organization() == organization@,
            r.spec_application() == application@,
    {
        AppInfo { env_arg, qualifier, organization, application }
    }

    pub fn env_arg(&self) -> (r: &'static str)
        ensures
            r@ == self.spec_env_arg(),
    {
        self.env_arg
    }

    pub fn qualifier(&self) -> (r: &'static str)
        ensures
            r@ == self.spec_qualifier(),
    {
        self.qualifier
    }

    pub fn organization(&self) -> (r: &'static str)
        ensures
            r@ == self.spec_organization(),
    {
        self.organization
    }

    pub fn application(&self) -> (r: &'static str)
        ensures
            r@ == self.spec_application(),
    {
        self.application
    }
}

impl Default for AppInfo {
    /// The names of the sign-in helper itself.
    fn default() -> (r: Self)
        ensures
            r.spec_env_arg() == "TEST_CXSIGN"@,
            r.spec_qualifier() == "up.workso"@,
            r.spec_organization() == "Worksoup"@,
            r.spec_application() == "cxsign"@,
    {
        AppInfo::new("TEST_CXSIGN", "up.workso", "Worksoup", "cxsign")
    }
}

/// The folder that holds the configuration and the database.
pub struct ConfigDir(PathBuf);

/// What `PathBuf::join` gives for a path and a component.
pub uninterp spec fn path_join(base: PathBuf, name: Seq<char>) -> PathBuf;

/// `PathBuf::join`: the path with `name` appended as a new component; the result
/// is named `path_join` of the two, and nothing more is stated of it.
#[verifier::external_body]
fn join_component(base: &PathBuf, name: &str) -> (r: PathBuf)
    ensures
        r == path_join(*base, name@),
{
    base.join(name)
}

impl ConfigDir {
    /// The path it holds.
    pub closed spec fn dir(&self) -> PathBuf {
        self.0
    }

    /// The folder for the project folder `base`: `base` itself, or its subfolder
    /// `test` in a test run.
    pub fn with_base(base: PathBuf, is_testing: bool) -> (r: ConfigDir)
        ensures
            r.dir() == if is_testing {
                path_join(base, "test"@)
            } else {
                base
            },
    {
        if is_testing {
            ConfigDir(join_component(&base, "test"))
        } else {
            ConfigDir(base)
        }
    }

    pub fn get_config_dir(&self) -> (r: &PathBuf)
        ensures
            *r == self.dir(),
    {
        &self.0
    }
}

impl From<PathBuf> for ConfigDir {
    fn from(config_dir: PathBuf) -> (r: ConfigDir) {
        ConfigDir(config_dir)
    }
}

impl vstd::std_specs::convert::FromSpecImpl<PathBuf> for ConfigDir {
    open spec fn obeys_from_spec() -> bool {
        true
    }

    closed spec fn from_spec(v: PathBuf) -> ConfigDir {
        ConfigDir(v)
    }
}

/// The folder made from a path holds that path.
pub proof fn lemma_config_dir_from(v: PathBuf)
    ensures
        <ConfigDir as vstd::std_specs::convert::FromSpec<PathBuf>>::from_spec(v).dir() == v,
{
}

} // verus!
